//! Beta hardware reports: what the tester may type into one, where it may be
//! sent, how the outcomes are derived from what was observed, and the `curl`
//! configuration that submits it.
use vstd::prelude::*;
use vstd::utf8::{decode_utf8, valid_utf8};
use crate::crypto::{hex, hex_encode, os_random};
use crate::curl::{quote_config, quote_spec};
use crate::text::{
    all_ascii_hexdigits, char_is_control, char_is_white_space, chars_eq, chars_of, copy_range,
    dec_string, decimal_chars, find_char, index_of_char, is_control, is_white_space,
    lemma_index_of_char, push_chars, push_str_chars, string_of, trim, trim_chars, utf8_string,
};

verus! {

pub const MAX_NOTE_CHARS: usize = 1_000;
pub const MAX_ERROR_CHARS: usize = 2_000;
pub const MAX_CREDIT_NAME_CHARS: usize = 80;

/// A tested outcome.
#[derive(Debug, Clone, Copy, PartialEq, Eq, Structural)]
pub enum Outcome {
    Passed,
    Failed,
    Degraded,
    NotTested,
}

impl Outcome {
    /// The outcome as the command line and the report spell it.
    pub fn label(self) -> (r: &'static str)
        ensures
            r@ == (match self {
                Outcome::Passed => "passed"@,
                Outcome::Failed => "failed"@,
                Outcome::Degraded => "degraded"@,
                Outcome::NotTested => "not-tested"@,
            }),
    {
        match self {
            Outcome::Passed => "passed",
            Outcome::Failed => "failed",
            Outcome::Degraded => "degraded",
            Outcome::NotTested => "not-tested",
        }
    }
}

/// Where an outcome comes from.
#[derive(Debug, Clone, Copy, PartialEq, Eq, Structural)]
pub enum Evidence {
    Observed,
    TesterAsserted,
    Unavailable,
}

impl Evidence {
    pub fn label(self) -> (r: &'static str)
        ensures
            r@ == (match self {
                Evidence::Observed => "observed"@,
                Evidence::TesterAsserted => "tester_asserted"@,
                Evidence::Unavailable => "unavailable"@,
            }),
    {
        match self {
            Evidence::Observed => "observed",
            Evidence::TesterAsserted => "tester_asserted",
            Evidence::Unavailable => "unavailable",
        }
    }
}

#[derive(Debug, Clone, Copy, PartialEq, Eq, Structural)]
pub struct OutcomeFact {
    pub result: Outcome,
    pub evidence_source: Evidence,
}

#[derive(Debug, Clone, Copy, PartialEq, Eq, Structural)]
pub struct Outcomes {
    pub boot: OutcomeFact,
    pub gpu_detection: OutcomeFact,
    pub inference: OutcomeFact,
}

/// The three outcomes of a report. Boot is what the tester asserted, else
/// observed as passed when running on a Cameo image, else not tested. GPU
/// detection passed exactly when hardware was observed and an AMD GPU was
/// among it. Inference is what the tester asserted (not tested by default).
pub open spec fn outcomes_spec(boot: Option<Outcome>, on_cameo_image: bool, hardware_observed: bool, any_amd_gpu: bool, inference: Outcome) -> Outcomes {
    Outcomes {
        boot: OutcomeFact {
            result: match boot {
                Some(b) => b,
                None => if on_cameo_image { Outcome::Passed } else { Outcome::NotTested },
            },
            evidence_source: if boot is Some {
                Evidence::TesterAsserted
            } else if on_cameo_image {
                Evidence::Observed
            } else {
                Evidence::Unavailable
            },
        },
        gpu_detection: OutcomeFact {
            result: if hardware_observed && any_amd_gpu { Outcome::Passed } else { Outcome::Failed },
            evidence_source: if hardware_observed { Evidence::Observed } else { Evidence::Unavailable },
        },
        inference: OutcomeFact {
            result: inference,
            evidence_source: if inference == Outcome::NotTested { Evidence::Unavailable } else { Evidence::TesterAsserted },
        },
    }
}

pub fn outcomes(boot: Option<Outcome>, on_cameo_image: bool, hardware_observed: bool, any_amd_gpu: bool, inference: Outcome) -> (r: Outcomes)
    ensures
        r == outcomes_spec(boot, on_cameo_image, hardware_observed, any_amd_gpu, inference),
{
    let boot_result = match boot {
        Some(b) => b,
        None => if on_cameo_image { Outcome::Passed } else { Outcome::NotTested },
    };
    let boot_source = if boot.is_some() {
        Evidence::TesterAsserted
    } else if on_cameo_image {
        Evidence::Observed
    } else {
        Evidence::Unavailable
    };
    let detection = if hardware_observed && any_amd_gpu { Outcome::Passed } else { Outcome::Failed };
    let detection_source = if hardware_observed { Evidence::Observed } else { Evidence::Unavailable };
    let inference_source = match inference {
        Outcome::NotTested => Evidence::Unavailable,
        _ => Evidence::TesterAsserted,
    };
    Outcomes {
        boot: OutcomeFact { result: boot_result, evidence_source: boot_source },
        gpu_detection: OutcomeFact { result: detection, evidence_source: detection_source },
        inference: OutcomeFact { result: inference, evidence_source: inference_source },
    }
}

pub open spec fn credit_without_name_message() -> Seq<char> {
    "--credit requires --credit-name; omit both to submit anonymously"@
}

pub open spec fn name_without_credit_message() -> Seq<char> {
    "--credit-name requires the separate --credit consent flag"@
}

/// Public credit needs both the consent flag and a usable name; a name given
/// without the consent flag is refused rather than ignored.
pub fn validate_credit(credit: bool, clean_name: Option<&str>, name_was_supplied: bool) -> (r: Result<(), String>)
    ensures
        match r {
            Ok(()) => !(credit && clean_name is None) && !(!credit && name_was_supplied),
            Err(e) => if credit && clean_name is None {
                e@ == credit_without_name_message()
            } else {
                !credit && name_was_supplied && e@ == name_without_credit_message()
            },
        },
{
    if credit && clean_name.is_none() {
        return Err(String::from_str("--credit requires --credit-name; omit both to submit anonymously"));
    }
    if !credit && name_was_supplied {
        return Err(String::from_str("--credit-name requires the separate --credit consent flag"));
    }
    Ok(())
}

/// Control characters other than line feed and tab.
pub open spec fn bad_control(c: char) -> bool {
    is_control(c) && c != '\n' && c != '\t'
}

/// What `clean_user_text` makes of free text typed by the tester: nothing
/// when it is absent or blank; else the trimmed text, refused when it is
/// longer than `max` characters or holds a control character other than a
/// line feed or tab (which includes the escape that starts a terminal
/// sequence).
pub open spec fn clean_user_text_spec(value: Option<Seq<char>>, max: nat, label: Seq<char>) -> Result<Option<Seq<char>>, Seq<char>> {
    match value {
        None => Ok(None),
        Some(v) => {
            let t = trim(v);
            if t.len() == 0 {
                Ok(None)
            } else if t.len() > max {
                Err(label + " exceeds "@ + dec_string(max) + " characters"@)
            } else if exists|i: int| 0 <= i < t.len() && bad_control(#[trigger] t[i]) {
                Err(label + " contains unsupported control characters"@)
            } else if t.contains('\u{1b}') {
                Err(label + " contains a terminal escape sequence"@)
            } else {
                Ok(Some(t))
            }
        },
    }
}

fn has_bad_control(t: &[char]) -> (r: bool)
    ensures
        r == exists|i: int| 0 <= i < t@.len() && bad_control(#[trigger] t@[i]),
{
    let mut i: usize = 0;
    while i < t.len()
        invariant
            i <= t@.len(),
            forall|j: int| 0 <= j < i ==> !bad_control(#[trigger] t@[j]),
        decreases t.len() - i,
    {
        let ch = t[i];
        if char_is_control(ch) && ch != '\n' && ch != '\t' {
            assert(bad_control(t@[i as int]));
            return true;
        }
        i += 1;
    }
    false
}

pub fn clean_user_text(value: Option<&str>, max: usize, label: &str) -> (r: Result<Option<String>, String>)
    requires
        max <= u64::MAX,
    ensures
        match (r, clean_user_text_spec(match value { Some(v) => Some(v@), None => None }, max as nat, label@)) {
            (Ok(Some(s)), Ok(Some(t))) => s@ == t,
            (Ok(None), Ok(None)) => true,
            (Err(e), Err(m)) => e@ == m,
            _ => false,
        },
{
    let v = match value {
        None => return Ok(None),
        Some(v) => v,
    };
    let c = chars_of(v);
    let t = trim_chars(&c);
    if t.len() == 0 {
        return Ok(None);
    }
    if t.len() > max {
        let mut m = chars_of(label);
        push_str_chars(&mut m, " exceeds ");
        let d = decimal_chars(max as u64);
        push_chars(&mut m, &d);
        push_str_chars(&mut m, " characters");
        return Err(string_of(&m));
    }
    if has_bad_control(&t) {
        let mut m = chars_of(label);
        push_str_chars(&mut m, " contains unsupported control characters");
        return Err(string_of(&m));
    }
    proof {
        lemma_index_of_char(t@, '\u{1b}', 0);
    }
    if find_char(&t, '\u{1b}').is_some() {
        let mut m = chars_of(label);
        push_str_chars(&mut m, " contains a terminal escape sequence");
        return Err(string_of(&m));
    }
    proof {
        if t@.contains('\u{1b}') {
            let k = choose|k: int| 0 <= k < t@.len() && t@[k] == '\u{1b}';
            assert(t@[k] == '\u{1b}');
        }
    }
    Ok(Some(string_of(&t)))
}

pub open spec fn endpoint_scheme_message() -> Seq<char> {
    "report submission endpoint must use https://"@
}

pub open spec fn endpoint_malformed_message() -> Seq<char> {
    "report submission endpoint is malformed"@
}

/// The authority of `rest`: everything before its first `/`.
pub open spec fn authority_of(rest: Seq<char>) -> Seq<char> {
    match index_of_char(rest, '/', 0) {
        Some(k) => rest.take(k),
        None => rest,
    }
}

/// A submission endpoint is `https://`, names a host without user
/// information, and holds no backslash, fragment or white space.
pub open spec fn endpoint_error(endpoint: Seq<char>) -> Option<Seq<char>> {
    if !(endpoint.len() >= 8 && endpoint.take(8) == "https://"@) {
        Some(endpoint_scheme_message())
    } else {
        let authority = authority_of(endpoint.skip(8));
        if authority.len() == 0 || authority.contains('@') || endpoint.contains('\\')
            || endpoint.contains('#') || (exists|i: int| 0 <= i < endpoint.len() && is_white_space(#[trigger] endpoint[i])) {
            Some(endpoint_malformed_message())
        } else {
            None
        }
    }
}

fn contains_char(s: &[char], c: char) -> (r: bool)
    ensures
        r == s@.contains(c),
{
    let mut i: usize = 0;
    while i < s.len()
        invariant
            i <= s@.len(),
            forall|j: int| 0 <= j < i ==> s@[j] != c,
        decreases s.len() - i,
    {
        if s[i] == c {
            assert(s@[i as int] == c);
            return true;
        }
        i += 1;
    }
    false
}

fn has_white_space(s: &[char]) -> (r: bool)
    ensures
        r == exists|i: int| 0 <= i < s@.len() && is_white_space(#[trigger] s@[i]),
{
    let mut i: usize = 0;
    while i < s.len()
        invariant
            i <= s@.len(),
            forall|j: int| 0 <= j < i ==> !is_white_space(#[trigger] s@[j]),
        decreases s.len() - i,
    {
        if char_is_white_space(s[i]) {
            assert(is_white_space(s@[i as int]));
            return true;
        }
        i += 1;
    }
    false
}

pub fn validate_endpoint(endpoint: &str) -> (r: Result<(), String>)
    ensures
        match r {
            Ok(()) => endpoint_error(endpoint@) is None,
            Err(e) => endpoint_error(endpoint@) == Some(e@),
        },
{
    let c = chars_of(endpoint);
    let n = c.len();
    let https = chars_of("https://");
    if n < 8 || !chars_eq(&copy_range(&c, 0, 8), &https) {
        proof {
            if n >= 8 {
                assert(c@.subrange(0, 8) =~= c@.take(8));
            }
        }
        return Err(String::from_str("report submission endpoint must use https://"));
    }
    assert(c@.subrange(0, 8) =~= c@.take(8));
    let rest = copy_range(&c, 8, n);
    assert(rest@ =~= c@.skip(8));
    proof {
        lemma_index_of_char(rest@, '/', 0);
    }
    let authority = match find_char(&rest, '/') {
        Some(k) => copy_range(&rest, 0, k),
        None => rest,
    };
    assert(authority@ =~= authority_of(c@.skip(8)));
    if authority.len() == 0 || contains_char(&authority, '@') || contains_char(&c, '\\')
        || contains_char(&c, '#') || has_white_space(&c) {
        return Err(String::from_str("report submission endpoint is malformed"));
    }
    Ok(())
}

pub open spec fn submission_control_message() -> Seq<char> {
    "submission contains an unsupported control character"@
}

/// Quoting for the submission's `curl` configuration: as for any outbound
/// call, except that a vertical tab is refused rather than escaped.
pub open spec fn quote_submission_spec(value: Seq<char>) -> Option<Seq<char>> {
    if value.contains('\u{b}') {
        None
    } else {
        quote_spec(value)
    }
}

pub fn quote_curl_config(value: &str) -> (r: Result<String, String>)
    ensures
        match r {
            Ok(q) => quote_submission_spec(value@) == Some(q@),
            Err(e) => quote_submission_spec(value@) is None && e@ == submission_control_message(),
        },
{
    let c = chars_of(value);
    if contains_char(&c, '\u{b}') {
        return Err(String::from_str("submission contains an unsupported control character"));
    }
    match quote_config(value) {
        Ok(q) => Ok(q),
        Err(_) => Err(String::from_str("submission contains an unsupported control character")),
    }
}

pub open spec fn not_utf8_message() -> Seq<char> {
    "submission is not UTF-8"@
}

/// The `curl` configuration that posts a report payload to the endpoint over
/// HTTPS only, with bounded time and reply size.
pub open spec fn submission_config_spec(endpoint: Seq<char>, payload: Seq<char>) -> Option<Seq<char>> {
    match (quote_submission_spec(endpoint), quote_submission_spec(payload)) {
        (Some(qe), Some(qp)) => Some(
            "silent\nshow-error\nfail\nconnect-timeout = 5\nmax-time = 15\nmax-filesize = 65536\nproto = \"=https\"\ntlsv1.2\nrequest = \"POST\"\nheader = \"Content-Type: application/json\"\nurl = "@
                + qe + "\ndata-binary = "@ + qp + "\n"@,
        ),
        _ => None,
    }
}

pub fn submission_config(endpoint: &str, payload: &[u8]) -> (r: Result<String, String>)
    ensures
        match r {
            Ok(config) => valid_utf8(payload@) && submission_config_spec(endpoint@, decode_utf8(payload@)) == Some(config@),
            Err(e) => if !valid_utf8(payload@) {
                e@ == not_utf8_message()
            } else {
                submission_config_spec(endpoint@, decode_utf8(payload@)) is None && e@ == submission_control_message()
            },
        },
{
    let text = match utf8_string(payload) {
        None => return Err(String::from_str("submission is not UTF-8")),
        Some(t) => t,
    };
    let qe = match quote_curl_config(endpoint) {
        Err(e) => return Err(e),
        Ok(q) => q,
    };
    let qp = match quote_curl_config(text.as_str()) {
        Err(e) => return Err(e),
        Ok(q) => q,
    };
    let mut v = chars_of("silent\nshow-error\nfail\nconnect-timeout = 5\nmax-time = 15\nmax-filesize = 65536\nproto = \"=https\"\ntlsv1.2\nrequest = \"POST\"\nheader = \"Content-Type: application/json\"\nurl = ");
    push_str_chars(&mut v, qe.as_str());
    push_str_chars(&mut v, "\ndata-binary = ");
    push_str_chars(&mut v, qp.as_str());
    push_str_chars(&mut v, "\n");
    Ok(string_of(&v))
}

/// The phrase a tester types to send a payload: `SUBMIT` and the first twelve
/// hex digits of the payload's digest.
pub open spec fn confirmation_phrase_spec(digest: Seq<char>) -> Seq<char> {
    "SUBMIT "@ + digest.take(12)
}

pub fn confirmation_phrase(digest: &str) -> (r: String)
    requires
        digest@.len() >= 12,
        all_ascii_hexdigits(digest@),
    ensures
        r@ == confirmation_phrase_spec(digest@),
{
    let c = chars_of(digest);
    let mut v = chars_of("SUBMIT ");
    let head = copy_range(&c, 0, 12);
    push_chars(&mut v, &head);
    string_of(&v)
}

/// Whether the typed answer, trimmed, is exactly the confirmation phrase.
pub fn confirmed(digest: &str, answer: &str) -> (r: bool)
    requires
        digest@.len() >= 12,
        all_ascii_hexdigits(digest@),
    ensures
        r == (trim(answer@) == confirmation_phrase_spec(digest@)),
{
    let phrase = confirmation_phrase(digest);
    let p = chars_of(phrase.as_str());
    let a = chars_of(answer);
    let t = trim_chars(&a);
    chars_eq(&t, &p)
}

/// A fresh report identifier: `chr_` and 12 OS-random bytes in hexadecimal.
pub fn report_id() -> (r: Result<String, String>)
    ensures
        match r {
            Ok(id) => exists|b: Seq<u8>| b.len() == 12 && id@ == "chr_"@ + #[trigger] hex_encode(b),
            Err(e) => exists|detail: Seq<char>| e@ == "generating report ID: "@ + detail,
        },
{
    match os_random(12) {
        Err(detail) => {
            let mut m = chars_of("generating report ID: ");
            push_str_chars(&mut m, detail.as_str());
            Err(string_of(&m))
        },
        Ok(bytes) => {
            let h = hex(&bytes);
            let mut m = chars_of("chr_");
            push_str_chars(&mut m, h.as_str());
            let id = string_of(&m);
            assert(id@ == "chr_"@ + hex_encode(bytes@));
            Ok(id)
        },
    }
}

} // verus!
