//! The host facts a hardware report may carry, and the cleaning every one of
//! them goes through: values are trimmed, bounded and free of control
//! characters before they are shown or sent.
use vstd::prelude::*;
use crate::text::{
    char_is_control, chars_eq_str, chars_of, copy_range, find_char, has_control, index_of_char,
    is_ascii_digit, is_control, lemma_index_of_char, string_of, trim, trim_chars,
};

verus! {

/// A reported value is kept trimmed, and only when it is not empty, holds at
/// most `max` characters and no control character.
pub open spec fn clean_fact_spec(value: Seq<char>, max: nat) -> Option<Seq<char>> {
    let t = trim(value);
    if t.len() > 0 && t.len() <= max && !has_control(t) {
        Some(t)
    } else {
        None
    }
}

/// A value that must always be shown: trimmed and cut to `max` characters, or
/// `unknown` when it is blank or holds a control character.
pub open spec fn bounded_fact_spec(value: Seq<char>, max: nat) -> Seq<char> {
    let t = trim(value);
    if t.len() == 0 || has_control(t) {
        "unknown"@
    } else if t.len() <= max {
        t
    } else {
        t.take(max as int)
    }
}

pub open spec fn is_lower_or_digit(c: char) -> bool {
    ('a' <= c && c <= 'z') || is_ascii_digit(c)
}

/// A GPU target name such as `gfx1100`: a clean fact of at most 32
/// characters, `gfx` followed by at least one lower-case letter or digit and
/// nothing else.
pub open spec fn gfx_target_spec(value: Option<Seq<char>>) -> Option<Seq<char>> {
    match value {
        None => None,
        Some(v) => match clean_fact_spec(v, 32) {
            Some(t) => if t.len() > 3 && t.take(3) == "gfx"@ && (forall|i: int| 3 <= i < t.len() ==> is_lower_or_digit(#[trigger] t[i])) {
                Some(t)
            } else {
                None
            },
            None => None,
        },
    }
}

fn has_control_exec(v: &[char]) -> (r: bool)
    ensures
        r == has_control(v@),
{
    let mut i: usize = 0;
    while i < v.len()
        invariant
            i <= v@.len(),
            forall|j: int| 0 <= j < i ==> !is_control(#[trigger] v@[j]),
        decreases v.len() - i,
    {
        if char_is_control(v[i]) {
            assert(is_control(v@[i as int]));
            return true;
        }
        i += 1;
    }
    false
}

fn clean_chars(value: &[char], max: usize) -> (r: Option<Vec<char>>)
    ensures
        match r {
            Some(t) => clean_fact_spec(value@, max as nat) == Some(t@),
            None => clean_fact_spec(value@, max as nat) is None,
        },
{
    let t = trim_chars(value);
    if t.len() > 0 && t.len() <= max && !has_control_exec(&t) {
        Some(t)
    } else {
        None
    }
}

/// See [`clean_fact_spec`]; an absent value stays absent.
pub fn clean_fact(value: Option<String>, max: usize) -> (r: Option<String>)
    ensures
        match value {
            None => r is None,
            Some(v) => match clean_fact_spec(v@, max as nat) {
                Some(t) => r matches Some(s) && s@ == t,
                None => r is None,
            },
        },
{
    match value {
        None => None,
        Some(v) => {
            let c = chars_of(v.as_str());
            match clean_chars(&c, max) {
                Some(t) => Some(string_of(&t)),
                None => None,
            }
        },
    }
}

/// See [`bounded_fact_spec`].
pub fn bounded_fact(value: String, max: usize) -> (r: String)
    ensures
        r@ == bounded_fact_spec(value@, max as nat),
{
    let c = chars_of(value.as_str());
    let t = trim_chars(&c);
    if t.len() == 0 || has_control_exec(&t) {
        return String::from_str("unknown");
    }
    if t.len() <= max {
        string_of(&t)
    } else {
        string_of(&copy_range(&t, 0, max))
    }
}

fn tail_lower_or_digit(t: &[char]) -> (r: bool)
    requires
        t@.len() >= 3,
    ensures
        r == (forall|i: int| 3 <= i < t@.len() ==> is_lower_or_digit(#[trigger] t@[i])),
{
    let mut i: usize = 3;
    while i < t.len()
        invariant
            3 <= i <= t@.len(),
            forall|j: int| 3 <= j < i ==> is_lower_or_digit(#[trigger] t@[j]),
        decreases t.len() - i,
    {
        let ch = t[i];
        if !(('a' <= ch && ch <= 'z') || ('0' <= ch && ch <= '9')) {
            assert(!is_lower_or_digit(t@[i as int]));
            return false;
        }
        i += 1;
    }
    true
}

/// See [`gfx_target_spec`].
pub fn clean_gfx_target(value: Option<String>) -> (r: Option<String>)
    ensures
        match gfx_target_spec(opt_view(value)) {
            Some(t) => r matches Some(s) && s@ == t,
            None => r is None,
        },
{
    let v = match value {
        None => return None,
        Some(v) => v,
    };
    let c = chars_of(v.as_str());
    let t = match clean_chars(&c, 32) {
        None => return None,
        Some(t) => t,
    };
    if t.len() <= 3 {
        return None;
    }
    let head = copy_range(&t, 0, 3);
    assert(head@ =~= t@.take(3));
    if !chars_eq_str(&head, "gfx") {
        return None;
    }
    if !tail_lower_or_digit(&t) {
        return None;
    }
    Some(string_of(&t))
}

/// The line starting at `s`'s first character, without its `\n` and without
/// one `\r` before it (`str::lines`).
pub open spec fn strip_cr(line: Seq<char>) -> Seq<char> {
    if line.len() > 0 && line.last() == '\r' {
        line.drop_last()
    } else {
        line
    }
}

/// The CPU model a `/proc/cpuinfo` line names: after the first `:` of a line
/// whose key is `model name` or `Hardware`, cleaned as a fact of at most 160
/// characters.
pub open spec fn cpu_line_value(line: Seq<char>) -> Option<Seq<char>> {
    match index_of_char(line, ':', 0) {
        None => None,
        Some(k) => {
            let key = trim(line.take(k));
            if key == "model name"@ || key == "Hardware"@ {
                clean_fact_spec(line.skip(k + 1), 160)
            } else {
                None
            }
        },
    }
}

/// The first line of `/proc/cpuinfo` that yields a CPU model.
pub open spec fn cpu_model_spec(s: Seq<char>) -> Option<Seq<char>>
    decreases s.len(),
{
    if s.len() == 0 {
        None
    } else {
        match index_of_char(s, '\n', 0) {
            None => cpu_line_value(strip_cr(s)),
            Some(j) => match cpu_line_value(strip_cr(s.take(j))) {
                Some(v) => Some(v),
                None => if 0 <= j < s.len() { cpu_model_spec(s.skip(j + 1)) } else { None },
            },
        }
    }
}

fn cpu_line_exec(line: &[char]) -> (r: Option<Vec<char>>)
    ensures
        match cpu_line_value(line@) {
            Some(v) => r matches Some(x) && x@ == v,
            None => r is None,
        },
{
    proof {
        lemma_index_of_char(line@, ':', 0);
    }
    match find_char(line, ':') {
        None => None,
        Some(k) => {
            assert(k < line.len());
            let key = trim_chars(&copy_range(line, 0, k));
            assert(line@.subrange(0, k as int) =~= line@.take(k as int));
            if chars_eq_str(&key, "model name") || chars_eq_str(&key, "Hardware") {
                let rest = copy_range(line, k + 1, line.len());
                assert(line@.subrange(k + 1, line@.len() as int) =~= line@.skip(k + 1));
                clean_chars(&rest, 160)
            } else {
                None
            }
        },
    }
}

spec fn find_char_none(s: Seq<char>) -> bool {
    index_of_char(s, '\n', 0) is None
}

/// The CPU model named in the text of `/proc/cpuinfo`, if any line names one.
pub fn cpu_model_from(cpuinfo: &str) -> (r: Option<String>)
    ensures
        match cpu_model_spec(cpuinfo@) {
            Some(v) => r matches Some(x) && x@ == v,
            None => r is None,
        },
{
    let s = chars_of(cpuinfo);
    let n = s.len();
    let mut start: usize = 0;
    assert(s@.skip(0) =~= s@);
    while start < n
        invariant
            start <= n,
            n == s@.len(),
            cpu_model_spec(cpuinfo@) == cpu_model_spec(s@.skip(start as int)),
            s@ == cpuinfo@,
        decreases n - start,
    {
        let rest = copy_range(&s, start, n);
        assert(rest@ =~= s@.skip(start as int));
        proof {
            lemma_index_of_char(rest@, '\n', 0);
        }
        let (line_end, next) = match find_char(&rest, '\n') {
            Some(j) => (j, start + j + 1),
            None => (rest.len(), n),
        };
        let mut line = copy_range(&rest, 0, line_end);
        if line.len() > 0 && line[line.len() - 1] == '\r' {
            let l = line.len() - 1;
            line = copy_range(&line, 0, l);
            assert(line@ =~= strip_cr(rest@.take(line_end as int)));
        } else {
            assert(line@ =~= strip_cr(rest@.take(line_end as int)));
        }
        proof {
            if find_char_none(rest@) {
                assert(rest@.take(line_end as int) =~= rest@);
            }
        }
        match cpu_line_exec(&line) {
            Some(v) => {
                return Some(string_of(&v));
            },
            None => {},
        }
        if next >= n {
            assert(next == n);
            proof {
                match index_of_char(rest@, '\n', 0) {
                    Some(j) => {
                        assert(rest@.skip(j + 1).len() == 0);
                        assert(cpu_model_spec(rest@.skip(j + 1)) is None);
                    },
                    None => {},
                }
            }
            return None;
        }
        assert(rest@.skip(line_end + 1) =~= s@.skip(next as int));
        start = next;
    }
    assert(s@.skip(start as int).len() == 0);
    None
}

/// The installed build record as read from the image, before cleaning.
pub struct InstalledBuild {
    pub cameo_version: String,
    pub iso_build_id: Option<String>,
    pub edition: Option<String>,
    pub source_revision: Option<String>,
    pub source_dirty: Option<bool>,
    pub knossos_revision: Option<String>,
    pub arch_snapshot: Option<String>,
    pub rocm_cli_version: Option<String>,
}

/// What a report says of the installed Cameo artifact.
pub struct ArtifactFacts {
    pub cameo_version: String,
    pub iso_build_id: Option<String>,
    pub edition: Option<String>,
    pub source_revision: Option<String>,
    pub source_dirty: Option<bool>,
    pub knossos_revision: Option<String>,
    pub arch_snapshot: Option<String>,
    pub rocm_cli_version: Option<String>,
}

pub open spec fn opt_view(v: Option<String>) -> Option<Seq<char>> {
    match v {
        Some(s) => Some(s@),
        None => None,
    }
}

pub open spec fn clean_opt(v: Option<String>, max: nat) -> Option<Seq<char>> {
    match v {
        Some(s) => clean_fact_spec(s@, max),
        None => None,
    }
}

/// Cleans each field of the installed record; a version that does not
/// survive cleaning falls back to the running program's own.
pub fn artifact_from_installed(installed: InstalledBuild, fallback_version: String) -> (r: ArtifactFacts)
    ensures
        r.cameo_version@ == (match clean_fact_spec(installed.cameo_version@, 64) {
            Some(v) => v,
            None => fallback_version@,
        }),
        opt_view(r.iso_build_id) == clean_opt(installed.iso_build_id, 128),
        opt_view(r.edition) == clean_opt(installed.edition, 32),
        opt_view(r.source_revision) == clean_opt(installed.source_revision, 64),
        r.source_dirty == installed.source_dirty,
        opt_view(r.knossos_revision) == clean_opt(installed.knossos_revision, 64),
        opt_view(r.arch_snapshot) == clean_opt(installed.arch_snapshot, 32),
        opt_view(r.rocm_cli_version) == clean_opt(installed.rocm_cli_version, 64),
{
    let ghost g = installed;
    let cameo_version = match clean_fact(Some(installed.cameo_version), 64) {
        Some(v) => v,
        None => fallback_version,
    };
    ArtifactFacts {
        cameo_version,
        iso_build_id: clean_fact(installed.iso_build_id, 128),
        edition: clean_fact(installed.edition, 32),
        source_revision: clean_fact(installed.source_revision, 64),
        source_dirty: installed.source_dirty,
        knossos_revision: clean_fact(installed.knossos_revision, 64),
        arch_snapshot: clean_fact(installed.arch_snapshot, 32),
        rocm_cli_version: clean_fact(installed.rocm_cli_version, 64),
    }
}

} // verus!
