//! The release credits roster: consented beta testers, checked before any of
//! its text reaches a terminal.
use vstd::prelude::*;
use crate::text::{char_is_control, chars_of, chars_eq_str, has_control, is_control, push_str_chars, string_of, trim, trim_chars};

verus! {

pub const MAX_TESTERS: usize = 10_000;

pub struct Tester {
    pub name: String,
    pub date: Option<String>,
    pub machine: Option<String>,
    pub gpu: Option<String>,
    pub proved: Option<String>,
}

pub struct Roster {
    pub schema: String,
    pub consent: String,
    pub release_id: Option<String>,
    pub cutoff_at: Option<String>,
    pub testers: Vec<Tester>,
}

/// A roster text field is printable when it is not blank, holds at most `max`
/// characters and no control character (which could drive the terminal).
pub open spec fn text_ok(value: Seq<char>, max: nat) -> bool {
    trim(value).len() > 0 && value.len() <= max && !has_control(value)
}

pub open spec fn text_error(label: Seq<char>) -> Seq<char> {
    "credits "@ + label + " is empty, oversized, or contains controls"@
}

/// The first complaint about an optional field, if it is present and bad.
pub open spec fn optional_error(value: Option<String>, max: nat, label: Seq<char>) -> Option<Seq<char>> {
    match value {
        Some(v) => if text_ok(v@, max) { None } else { Some(text_error(label)) },
        None => None,
    }
}

/// The first complaint about one tester, fields checked in order.
pub open spec fn tester_error(t: Tester) -> Option<Seq<char>> {
    if !text_ok(t.name@, 80) {
        Some(text_error("tester name"@))
    } else if optional_error(t.date, 32, "date"@) is Some {
        optional_error(t.date, 32, "date"@)
    } else if optional_error(t.machine, 160, "machine"@) is Some {
        optional_error(t.machine, 160, "machine"@)
    } else if optional_error(t.gpu, 160, "GPU"@) is Some {
        optional_error(t.gpu, 160, "GPU"@)
    } else {
        optional_error(t.proved, 500, "evidence summary"@)
    }
}

/// The first complaint about the testers from index `i` on.
pub open spec fn testers_error(ts: Seq<Tester>, i: int) -> Option<Seq<char>>
    decreases ts.len() - i,
{
    if i < 0 || i >= ts.len() {
        None
    } else if tester_error(ts[i]) is Some {
        tester_error(ts[i])
    } else {
        testers_error(ts, i + 1)
    }
}

/// What `validate` reports: the schema first, then the size, the consent
/// line, and each tester in order; `None` when the roster is printable.
pub open spec fn roster_error(r: Roster) -> Option<Seq<char>> {
    if r.schema@ != "cameo-testers/v1"@ {
        Some("unsupported credits roster schema: "@ + r.schema@)
    } else if r.testers@.len() > MAX_TESTERS {
        Some("credits roster exceeds 10,000 entries"@)
    } else if !text_ok(r.consent@, 256) {
        Some(text_error("consent"@))
    } else {
        testers_error(r.testers@, 0)
    }
}

fn has_control_exec(v: &[char]) -> (r: bool)
    ensures
        r == has_control(v@),
{
    let mut i: usize = 0;
    while i < v.len()
        invariant
            i <= v@.len(),
            forall|j: int| 0 <= j < i ==> !is_control(#[trigger] v@[j]),
        decreases v.len() - i,
    {
        if char_is_control(v[i]) {
            assert(is_control(v@[i as int]));
            return true;
        }
        i += 1;
    }
    false
}

/// Checks one text field of the roster.
pub fn validate_text(value: &str, max: usize, label: &str) -> (r: Result<(), String>)
    ensures
        match r {
            Ok(()) => text_ok(value@, max as nat),
            Err(e) => !text_ok(value@, max as nat) && e@ == text_error(label@),
        },
{
    let c = chars_of(value);
    let t = trim_chars(&c);
    if t.len() == 0 || c.len() > max || has_control_exec(&c) {
        let mut m = chars_of("credits ");
        push_str_chars(&mut m, label);
        push_str_chars(&mut m, " is empty, oversized, or contains controls");
        return Err(string_of(&m));
    }
    Ok(())
}

fn validate_optional(value: &Option<String>, max: usize, label: &str) -> (r: Result<(), String>)
    ensures
        match r {
            Ok(()) => optional_error(*value, max as nat, label@) is None,
            Err(e) => optional_error(*value, max as nat, label@) == Some(e@),
        },
{
    match value {
        Some(v) => validate_text(v.as_str(), max, label),
        None => Ok(()),
    }
}

fn validate_tester(t: &Tester) -> (r: Result<(), String>)
    ensures
        match r {
            Ok(()) => tester_error(*t) is None,
            Err(e) => tester_error(*t) == Some(e@),
        },
{
    if let Err(e) = validate_text(t.name.as_str(), 80, "tester name") {
        return Err(e);
    }
    if let Err(e) = validate_optional(&t.date, 32, "date") {
        return Err(e);
    }
    if let Err(e) = validate_optional(&t.machine, 160, "machine") {
        return Err(e);
    }
    if let Err(e) = validate_optional(&t.gpu, 160, "GPU") {
        return Err(e);
    }
    validate_optional(&t.proved, 500, "evidence summary")
}

/// Checks a whole roster; the error names the first problem found.
pub fn validate(roster: &Roster) -> (r: Result<(), String>)
    ensures
        match r {
            Ok(()) => roster_error(*roster) is None,
            Err(e) => roster_error(*roster) == Some(e@),
        },
{
    let schema = chars_of(roster.schema.as_str());
    if !chars_eq_str(&schema, "cameo-testers/v1") {
        let mut m = chars_of("unsupported credits roster schema: ");
        push_str_chars(&mut m, roster.schema.as_str());
        return Err(string_of(&m));
    }
    if roster.testers.len() > MAX_TESTERS {
        return Err(String::from_str("credits roster exceeds 10,000 entries"));
    }
    if let Err(e) = validate_text(roster.consent.as_str(), 256, "consent") {
        return Err(e);
    }
    let n = roster.testers.len();
    let mut i: usize = 0;
    while i < n
        invariant
            n == roster.testers@.len(),
            i <= n,
            roster_error(*roster) == testers_error(roster.testers@, 0),
            testers_error(roster.testers@, 0) == testers_error(roster.testers@, i as int),
        decreases n - i,
    {
        if let Err(e) = validate_tester(&roster.testers[i]) {
            return Err(e);
        }
        i += 1;
    }
    Ok(())
}

} // verus!
