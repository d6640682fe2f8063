//! The configuration handed to `curl` on standard input for an outbound JSON
//! call. Secrets and request bodies go into this configuration, never into
//! process arguments, and every value is quoted so it cannot start a new
//! option.
use vstd::prelude::*;
use vstd::utf8::decode_utf8;
use crate::text::{
    char_is_control, chars_of, dec_string, decimal_chars, is_control, push_chars,
    push_str_chars, string_of, utf8_string,
};

verus! {

/// The quoted form of one character, or `None` for a control character curl
/// configuration cannot carry.
pub open spec fn quote_char(c: char) -> Option<Seq<char>> {
    if c == '\\' {
        Some(seq!['\\', '\\'])
    } else if c == '"' {
        Some(seq!['\\', '"'])
    } else if c == '\n' {
        Some(seq!['\\', 'n'])
    } else if c == '\r' {
        Some(seq!['\\', 'r'])
    } else if c == '\t' {
        Some(seq!['\\', 't'])
    } else if c == '\u{b}' {
        Some(seq!['\\', 'v'])
    } else if is_control(c) {
        None
    } else {
        Some(seq![c])
    }
}

/// The escaped characters of `s`, without the surrounding quotes.
pub open spec fn quote_body(s: Seq<char>) -> Option<Seq<char>>
    decreases s.len(),
{
    if s.len() == 0 {
        Some(Seq::empty())
    } else {
        match (quote_body(s.drop_last()), quote_char(s.last())) {
            (Some(b), Some(q)) => Some(b + q),
            _ => None,
        }
    }
}

/// A double-quoted curl configuration value.
pub open spec fn quote_spec(s: Seq<char>) -> Option<Seq<char>> {
    match quote_body(s) {
        Some(b) => Some(seq!['"'] + b + seq!['"']),
        None => None,
    }
}

pub open spec fn control_message() -> Seq<char> {
    "curl request contains an unsupported control character"@
}

/// Quotes a configuration value.
pub fn quote_config(value: &str) -> (r: Result<String, String>)
    ensures
        match r {
            Ok(q) => quote_spec(value@) == Some(q@),
            Err(e) => quote_spec(value@) is None && e@ == control_message(),
        },
{
    let c = chars_of(value);
    let mut out: Vec<char> = Vec::new();
    let mut i: usize = 0;
    while i < c.len()
        invariant
            i <= c@.len(),
            c@ == value@,
            quote_body(c@.take(i as int)) == Some(out@),
        decreases c.len() - i,
    {
        let ch = c[i];
        assert(c@.take(i + 1).drop_last() =~= c@.take(i as int));
        if ch == '\\' {
            out.push('\\');
            out.push('\\');
        } else if ch == '"' {
            out.push('\\');
            out.push('"');
        } else if ch == '\n' {
            out.push('\\');
            out.push('n');
        } else if ch == '\r' {
            out.push('\\');
            out.push('r');
        } else if ch == '\t' {
            out.push('\\');
            out.push('t');
        } else if ch == '\u{b}' {
            out.push('\\');
            out.push('v');
        } else if char_is_control(ch) {
            proof {
                assert(quote_char(ch) is None);
                assert(c@.take(i + 1).last() == ch);
                assert(quote_body(c@.take(i + 1)) is None);
                lemma_quote_body_none(c@, i + 1);
            }
            return Err(String::from_str("curl request contains an unsupported control character"));
        } else {
            out.push(ch);
        }
        assert(quote_body(c@.take(i + 1)) == Some(out@));
        i += 1;
    }
    assert(c@.take(c@.len() as int) =~= c@);
    let mut quoted: Vec<char> = Vec::new();
    quoted.push('"');
    push_chars(&mut quoted, &out);
    quoted.push('"');
    assert(quoted@ =~= seq!['"'] + out@ + seq!['"']);
    Ok(string_of(&quoted))
}

/// A failure in a prefix fails the whole.
proof fn lemma_quote_body_none(s: Seq<char>, k: int)
    requires
        0 < k <= s.len(),
        quote_body(s.take(k)) is None,
    ensures
        quote_body(s) is None,
    decreases s.len() - k,
{
    if k < s.len() {
        assert(s.take(k + 1).drop_last() =~= s.take(k));
        lemma_quote_body_none(s, k + 1);
    } else {
        assert(s.take(k) =~= s);
    }
}

/// Law of quoting: a quoted value holds no raw line break, so a secret or a
/// body can never start another configuration line; its only unescaped
/// quotes are the two that delimit it.
pub proof fn law_quoted_values_stay_on_one_line(s: Seq<char>)
    ensures
        quote_body(s) matches Some(b) ==> !b.contains('\n') && !b.contains('\r'),
        quote_body(s) matches Some(b) ==> forall|i: int| 0 <= i < b.len() && #[trigger] b[i] == '"' ==> i > 0 && b[i - 1] == '\\',
    decreases s.len(),
{
    if s.len() > 0 {
        law_quoted_values_stay_on_one_line(s.drop_last());
        if quote_body(s) is Some {
            let p = quote_body(s.drop_last()).unwrap();
            let q = quote_char(s.last()).unwrap();
            let b = p + q;
            assert(quote_body(s) == Some(b));
            assert forall|i: int| 0 <= i < b.len() implies b[i] != '\n' && b[i] != '\r' by {
                if i < p.len() {
                    assert(b[i] == p[i]);
                }
            }
            assert forall|i: int| 0 <= i < b.len() && #[trigger] b[i] == '"' implies i > 0 && b[i - 1] == '\\' by {
                if i < p.len() {
                    assert(b[i] == p[i]);
                    assert(b[i - 1] == p[i - 1]);
                }
            }
        }
    }
}

/// A planned curl call: its process arguments and the configuration written
/// to its standard input.
pub struct CurlPlan {
    pub args: [&'static str; 2],
    pub stdin_config: String,
}

pub open spec fn method_ok(m: Seq<char>) -> bool {
    m.len() > 0 && forall|i: int| 0 <= i < m.len() ==> 'A' <= #[trigger] m[i] && m[i] <= 'Z'
}

pub open spec fn method_message() -> Seq<char> {
    "curl request method must contain only uppercase ASCII letters"@
}

pub open spec fn body_message() -> Seq<char> {
    "outbound JSON request body is not valid UTF-8"@
}

/// The configuration of a JSON request, when every value can be quoted.
pub open spec fn config_spec(url: Seq<char>, method: Seq<char>, bearer: Option<Seq<char>>, body: Option<Seq<char>>, timeout: u64) -> Option<Seq<char>> {
    let head = "silent\nshow-error\nfail\n"@ + "max-time = "@ + dec_string(timeout as nat) + "\n"@
        + "proto = \"=https\"\ntlsv1.2\n"@;
    match (quote_spec(method), quote_spec(url)) {
        (Some(qm), Some(qu)) => {
            let base = head + "request = "@ + qm + "\n"@ + "url = "@ + qu + "\n"@;
            let auth = match bearer {
                None => Some(Seq::<char>::empty()),
                Some(t) => match quote_spec("Authorization: Bearer "@ + t) {
                    Some(qa) => Some("header = "@ + qa + "\n"@),
                    None => None,
                },
            };
            let data = match body {
                None => Some(Seq::<char>::empty()),
                Some(b) => match quote_spec(b) {
                    Some(qb) => Some("header = \"Content-Type: application/json\"\n"@ + "data-binary = "@ + qb + "\n"@),
                    None => None,
                },
            };
            match (auth, data) {
                (Some(a), Some(d)) => Some(base + a + d),
                _ => None,
            }
        },
        _ => None,
    }
}

/// Plans a JSON request through `curl --config -`.
pub fn plan_json_request(
    url: &str,
    method: &str,
    bearer: Option<&str>,
    body: Option<&[u8]>,
    timeout_secs: u64,
) -> (r: Result<CurlPlan, String>)
    ensures
        !method_ok(method@) ==> r is Err && r->Err_0@ == method_message(),
        method_ok(method@) && (body matches Some(b) && !vstd::utf8::valid_utf8(b@)) ==> r is Err,
        r matches Ok(plan) ==> plan.args@ == seq!["--config", "-"] && method_ok(method@)
            && config_spec(url@, method@, match bearer { Some(t) => Some(t@), None => None },
                match body { Some(b) => Some(decode_utf8(b@)), None => None }, timeout_secs) == Some(plan.stdin_config@),
        r matches Err(e) ==> (e@ == method_message() && !method_ok(method@)) || e@ == body_message() || e@ == control_message(),
        method_ok(method@) && (body matches Some(b) ==> vstd::utf8::valid_utf8(b@)) && config_spec(url@, method@, match bearer { Some(t) => Some(t@), None => None },
                match body { Some(b) => Some(decode_utf8(b@)), None => None }, timeout_secs) is Some ==> r is Ok,
{
    let m = chars_of(method);
    let mut upper = m.len() > 0;
    let mut i: usize = 0;
    while i < m.len()
        invariant
            i <= m@.len(),
            upper == (m@.len() > 0 && forall|j: int| 0 <= j < i ==> 'A' <= #[trigger] m@[j] && m@[j] <= 'Z'),
        decreases m.len() - i,
    {
        if !('A' <= m[i] && m[i] <= 'Z') {
            upper = false;
        }
        i += 1;
    }
    if !upper {
        return Err(String::from_str("curl request method must contain only uppercase ASCII letters"));
    }
    let mut config: Vec<char> = Vec::new();
    push_str_chars(&mut config, "silent\nshow-error\nfail\n");
    push_str_chars(&mut config, "max-time = ");
    let t = decimal_chars(timeout_secs);
    push_chars(&mut config, &t);
    push_str_chars(&mut config, "\n");
    push_str_chars(&mut config, "proto = \"=https\"\ntlsv1.2\n");
    let qm = match quote_config(method) {
        Err(e) => return Err(e),
        Ok(q) => q,
    };
    push_str_chars(&mut config, "request = ");
    push_str_chars(&mut config, qm.as_str());
    push_str_chars(&mut config, "\n");
    let qu = match quote_config(url) {
        Err(e) => return Err(e),
        Ok(q) => q,
    };
    push_str_chars(&mut config, "url = ");
    push_str_chars(&mut config, qu.as_str());
    push_str_chars(&mut config, "\n");
    let ghost base = config@;
    match bearer {
        Some(token) => {
            let mut h = chars_of("Authorization: Bearer ");
            let tc = chars_of(token);
            push_chars(&mut h, &tc);
            let header = string_of(&h);
            let qa = match quote_config(header.as_str()) {
                Err(e) => return Err(e),
                Ok(q) => q,
            };
            push_str_chars(&mut config, "header = ");
            push_str_chars(&mut config, qa.as_str());
            push_str_chars(&mut config, "\n");
        },
        None => {},
    }
    let ghost with_auth = config@;
    match body {
        Some(bytes) => {
            let text = match utf8_string(bytes) {
                None => return Err(String::from_str("outbound JSON request body is not valid UTF-8")),
                Some(text) => text,
            };
            push_str_chars(&mut config, "header = \"Content-Type: application/json\"\n");
            let qb = match quote_config(text.as_str()) {
                Err(e) => return Err(e),
                Ok(q) => q,
            };
            push_str_chars(&mut config, "data-binary = ");
            push_str_chars(&mut config, qb.as_str());
            push_str_chars(&mut config, "\n");
        },
        None => {},
    }
    proof {
        assert(base =~= "silent\nshow-error\nfail\n"@ + "max-time = "@ + dec_string(timeout_secs as nat) + "\n"@
            + "proto = \"=https\"\ntlsv1.2\n"@ + "request = "@ + qm@ + "\n"@ + "url = "@ + qu@ + "\n"@);
    }
    let stdin_config = string_of(&config);
    let args: [&'static str; 2] = ["--config", "-"];
    Ok(CurlPlan { args, stdin_config })
}

} // verus!
