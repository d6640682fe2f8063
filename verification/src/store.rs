//! The rules of the durable endpoint-intent store: what makes a committed
//! snapshot trustworthy on reading, the limits a commit must respect, how
//! generation files are named and ordered, and which of them a commit leaves
//! behind. The store keeps the newest generation and the one before it.
use vstd::prelude::*;
use crate::crypto::{hex_encode, sha256, sha256_hex};
use crate::json::{as_str, member, Json};
use crate::text::{
    chars_eq, chars_of, dec_string, dec_value, decimal_chars, digit_char, is_ascii_digit,
    is_digit_seq, parse_u64, string_of, u64_parse_spec,
};

verus! {

/// The largest snapshot file read or written, in bytes.
pub const SNAPSHOT_LIMIT: u64 = 4194304;
pub const MAX_PERSISTED_ENDPOINTS: usize = 256;
pub const MAX_PERSISTED_LEASES: usize = 4096;
pub const MAX_PERSISTED_SESSIONS: usize = 4096;
/// The snapshot format a commit writes; versions 1 to 3 are read.
pub const SNAPSHOT_VERSION: u32 = 3;

#[derive(Clone, Copy, Debug, PartialEq, Eq)]
pub enum StoreError {
    SnapshotFile,
    Integrity,
    TooManyEndpoints,
    LeaseCollection,
    LeaseIdentity,
    SessionCollection,
    SessionIdentity,
    GenerationMismatch,
    SessionLimit,
    LeaseLimit,
    EndpointLimit,
    GenerationExhausted,
    TooLarge,
    GenerationName,
}

impl StoreError {
    /// The operator-facing text of each refusal.
    pub open spec fn text(self) -> Seq<char> {
        match self {
            StoreError::SnapshotFile => "invalid endpoint snapshot file"@,
            StoreError::Integrity => "endpoint snapshot version/integrity mismatch"@,
            StoreError::TooManyEndpoints => "too many persisted endpoints"@,
            StoreError::LeaseCollection => "invalid persisted lease collection"@,
            StoreError::LeaseIdentity => "invalid persisted lease identity"@,
            StoreError::SessionCollection => "invalid persisted session collection"@,
            StoreError::SessionIdentity => "invalid persisted session identity"@,
            StoreError::GenerationMismatch => "endpoint snapshot version/integrity mismatch; explicit recovery is required"@,
            StoreError::SessionLimit => "session limit is 4096"@,
            StoreError::LeaseLimit => "lease limit is 4096"@,
            StoreError::EndpointLimit => "endpoint limit is 256"@,
            StoreError::GenerationExhausted => "endpoint generation exhausted"@,
            StoreError::TooLarge => "endpoint state exceeds 4 MiB"@,
            StoreError::GenerationName => "invalid endpoint generation filename"@,
        }
    }

    pub fn message(&self) -> (r: &'static str)
        ensures
            r@ == self.text(),
    {
        match self {
            StoreError::SnapshotFile => "invalid endpoint snapshot file",
            StoreError::Integrity => "endpoint snapshot version/integrity mismatch",
            StoreError::TooManyEndpoints => "too many persisted endpoints",
            StoreError::LeaseCollection => "invalid persisted lease collection",
            StoreError::LeaseIdentity => "invalid persisted lease identity",
            StoreError::SessionCollection => "invalid persisted session collection",
            StoreError::SessionIdentity => "invalid persisted session identity",
            StoreError::GenerationMismatch => "endpoint snapshot version/integrity mismatch; explicit recovery is required",
            StoreError::SessionLimit => "session limit is 4096",
            StoreError::LeaseLimit => "lease limit is 4096",
            StoreError::EndpointLimit => "endpoint limit is 256",
            StoreError::GenerationExhausted => "endpoint generation exhausted",
            StoreError::TooLarge => "endpoint state exceeds 4 MiB",
            StoreError::GenerationName => "invalid endpoint generation filename",
        }
    }
}

/// A snapshot is read only from a regular file within the size limit.
pub open spec fn snapshot_file_spec(is_file: bool, len: u64) -> Result<(), StoreError> {
    if !is_file || len > SNAPSHOT_LIMIT {
        Err(StoreError::SnapshotFile)
    } else {
        Ok(())
    }
}

pub fn check_snapshot_file(is_file: bool, len: u64) -> (r: Result<(), StoreError>)
    ensures
        r == snapshot_file_spec(is_file, len),
{
    if !is_file || len > SNAPSHOT_LIMIT {
        Err(StoreError::SnapshotFile)
    } else {
        Ok(())
    }
}

/// A present, non-empty string.
pub open spec fn nonempty_text(v: Option<Seq<char>>) -> bool {
    match v {
        Some(s) => s.len() > 0,
        None => false,
    }
}

/// A persisted lease names its own session, a model and an endpoint.
pub open spec fn lease_ok(id: Seq<char>, lease: Json) -> bool {
    &&& id.len() > 0
    &&& as_str(member(lease, "session_id"@)) == Some(id)
    &&& nonempty_text(as_str(member(lease, "model"@)))
    &&& nonempty_text(as_str(member(lease, "endpoint_id"@)))
}

/// A persisted session carries its own id.
pub open spec fn session_ok(id: Seq<char>, session: Json) -> bool {
    id.len() > 0 && as_str(member(session, "id"@)) == Some(id)
}

pub open spec fn all_leases_ok(leases: Seq<(String, Json)>) -> bool {
    forall|i: int| 0 <= i < leases.len() ==> lease_ok((#[trigger] leases[i]).0@, leases[i].1)
}

pub open spec fn all_sessions_ok(sessions: Seq<(String, Json)>) -> bool {
    forall|i: int| 0 <= i < sessions.len() ==> session_ok((#[trigger] sessions[i]).0@, sessions[i].1)
}

/// The verdict on a parsed snapshot: a known version whose recorded digest
/// is the SHA-256 (lower-case hex) of its state's serialisation, within the
/// collection limits, leases only from version 2 and sessions only from
/// version 3 on, and every lease and session under its own identity. The
/// first rule broken decides the error.
pub open spec fn snapshot_spec(
    version: u32,
    recorded: Seq<char>,
    state_json: Seq<u8>,
    endpoints: nat,
    leases: Seq<(String, Json)>,
    sessions: Seq<(String, Json)>,
) -> Result<(), StoreError> {
    if !(1 <= version <= 3) || recorded != hex_encode(sha256(state_json)) {
        Err(StoreError::Integrity)
    } else if endpoints > MAX_PERSISTED_ENDPOINTS {
        Err(StoreError::TooManyEndpoints)
    } else if leases.len() > MAX_PERSISTED_LEASES || (version == 1 && leases.len() > 0) {
        Err(StoreError::LeaseCollection)
    } else if !all_leases_ok(leases) {
        Err(StoreError::LeaseIdentity)
    } else if sessions.len() > MAX_PERSISTED_SESSIONS || (version < 3 && sessions.len() > 0) {
        Err(StoreError::SessionCollection)
    } else if !all_sessions_ok(sessions) {
        Err(StoreError::SessionIdentity)
    } else {
        Ok(())
    }
}

fn text_is(v: Option<&str>, want: &[char]) -> (r: bool)
    ensures
        r == (match v { Some(s) => s@ == want@, None => false }),
{
    match v {
        Some(s) => {
            let c = chars_of(s);
            chars_eq(&c, want)
        },
        None => false,
    }
}

fn text_nonempty(v: Option<&str>) -> (r: bool)
    ensures
        r == nonempty_text(match v { Some(s) => Some(s@), None => None }),
{
    match v {
        Some(s) => {
            let c = chars_of(s);
            c.len() > 0
        },
        None => false,
    }
}

fn field_str<'a>(v: &'a Json, k: &str) -> (r: Option<&'a str>)
    ensures
        match r {
            Some(s) => as_str(member(*v, k@)) == Some(s@),
            None => as_str(member(*v, k@)) is None,
        },
{
    match v.get(k) {
        Some(f) => f.as_str(),
        None => None,
    }
}

fn lease_valid(id: &str, lease: &Json) -> (r: bool)
    ensures
        r == lease_ok(id@, *lease),
{
    let idc = chars_of(id);
    if idc.len() == 0 {
        return false;
    }
    text_is(field_str(lease, "session_id"), &idc) && text_nonempty(field_str(lease, "model"))
        && text_nonempty(field_str(lease, "endpoint_id"))
}

fn session_valid(id: &str, session: &Json) -> (r: bool)
    ensures
        r == session_ok(id@, *session),
{
    let idc = chars_of(id);
    idc.len() > 0 && text_is(field_str(session, "id"), &idc)
}

fn leases_valid(leases: &[(String, Json)]) -> (r: bool)
    ensures
        r == all_leases_ok(leases@),
{
    let mut i: usize = 0;
    while i < leases.len()
        invariant
            i <= leases@.len(),
            forall|j: int| 0 <= j < i ==> lease_ok((#[trigger] leases@[j]).0@, leases@[j].1),
        decreases leases.len() - i,
    {
        if !lease_valid(leases[i].0.as_str(), &leases[i].1) {
            return false;
        }
        i += 1;
    }
    true
}

fn sessions_valid(sessions: &[(String, Json)]) -> (r: bool)
    ensures
        r == all_sessions_ok(sessions@),
{
    let mut i: usize = 0;
    while i < sessions.len()
        invariant
            i <= sessions@.len(),
            forall|j: int| 0 <= j < i ==> session_ok((#[trigger] sessions@[j]).0@, sessions@[j].1),
        decreases sessions.len() - i,
    {
        if !session_valid(sessions[i].0.as_str(), &sessions[i].1) {
            return false;
        }
        i += 1;
    }
    true
}

/// Checks a parsed snapshot (see [`snapshot_spec`]); `state_json` is the
/// serialisation of its state, whose digest is computed here.
pub fn check_snapshot(
    version: u32,
    recorded: &str,
    state_json: &[u8],
    endpoints: usize,
    leases: &[(String, Json)],
    sessions: &[(String, Json)],
) -> (r: Result<(), StoreError>)
    ensures
        r == snapshot_spec(version, recorded@, state_json@, endpoints as nat, leases@, sessions@),
{
    let digest = sha256_hex(state_json);
    let d = chars_of(digest.as_str());
    let rc = chars_of(recorded);
    if !(1 <= version && version <= 3) || !chars_eq(&rc, &d) {
        return Err(StoreError::Integrity);
    }
    if endpoints > MAX_PERSISTED_ENDPOINTS {
        return Err(StoreError::TooManyEndpoints);
    }
    if leases.len() > MAX_PERSISTED_LEASES || (version == 1 && leases.len() > 0) {
        return Err(StoreError::LeaseCollection);
    }
    if !leases_valid(leases) {
        return Err(StoreError::LeaseIdentity);
    }
    if sessions.len() > MAX_PERSISTED_SESSIONS || (version < 3 && sessions.len() > 0) {
        return Err(StoreError::SessionCollection);
    }
    if !sessions_valid(sessions) {
        return Err(StoreError::SessionIdentity);
    }
    Ok(())
}

/// Opening adopts the newest file only when the snapshot inside names the
/// same generation, and never with more endpoints than the limit.
pub open spec fn latest_spec(file_generation: u64, snapshot_generation: u64, endpoints: nat) -> Result<u64, StoreError> {
    if snapshot_generation != file_generation {
        Err(StoreError::GenerationMismatch)
    } else if endpoints > MAX_PERSISTED_ENDPOINTS {
        Err(StoreError::TooManyEndpoints)
    } else {
        Ok(file_generation)
    }
}

pub fn check_latest(file_generation: u64, snapshot_generation: u64, endpoints: usize) -> (r: Result<u64, StoreError>)
    ensures
        r == latest_spec(file_generation, snapshot_generation, endpoints as nat),
{
    if snapshot_generation != file_generation {
        Err(StoreError::GenerationMismatch)
    } else if endpoints > MAX_PERSISTED_ENDPOINTS {
        Err(StoreError::TooManyEndpoints)
    } else {
        Ok(file_generation)
    }
}

/// A commit respects the session, lease and endpoint limits (checked in that
/// order) and takes the next generation, which must exist in `u64`.
pub open spec fn commit_spec(sessions: nat, leases: nat, endpoints: nat, generation: u64) -> Result<u64, StoreError> {
    if sessions > MAX_PERSISTED_SESSIONS {
        Err(StoreError::SessionLimit)
    } else if leases > MAX_PERSISTED_LEASES {
        Err(StoreError::LeaseLimit)
    } else if endpoints > MAX_PERSISTED_ENDPOINTS {
        Err(StoreError::EndpointLimit)
    } else if generation == u64::MAX {
        Err(StoreError::GenerationExhausted)
    } else {
        Ok((generation + 1) as u64)
    }
}

pub fn next_generation(sessions: usize, leases: usize, endpoints: usize, generation: u64) -> (r: Result<u64, StoreError>)
    ensures
        r == commit_spec(sessions as nat, leases as nat, endpoints as nat, generation),
{
    if sessions > MAX_PERSISTED_SESSIONS {
        return Err(StoreError::SessionLimit);
    }
    if leases > MAX_PERSISTED_LEASES {
        return Err(StoreError::LeaseLimit);
    }
    if endpoints > MAX_PERSISTED_ENDPOINTS {
        return Err(StoreError::EndpointLimit);
    }
    match generation.checked_add(1) {
        Some(g) => Ok(g),
        None => Err(StoreError::GenerationExhausted),
    }
}

/// A serialised snapshot is written only within the size limit.
pub fn check_snapshot_size(len: usize) -> (r: Result<(), StoreError>)
    ensures
        r is Ok <==> len <= SNAPSHOT_LIMIT,
        r is Err ==> r == Err::<(), StoreError>(StoreError::TooLarge),
{
    if len as u64 > SNAPSHOT_LIMIT {
        Err(StoreError::TooLarge)
    } else {
        Ok(())
    }
}

/// `n` zeros.
pub open spec fn zeros(n: nat) -> Seq<char> {
    Seq::new(n, |i: int| '0')
}

/// `s` left-padded with zeros to `width` characters.
pub open spec fn zero_pad(s: Seq<char>, width: nat) -> Seq<char> {
    if s.len() < width {
        zeros((width - s.len()) as nat) + s
    } else {
        s
    }
}

pub open spec fn name_prefix() -> Seq<char> {
    seq!['s', 't', 'a', 't', 'e', '-']
}

pub open spec fn name_suffix() -> Seq<char> {
    seq!['.', 'j', 's', 'o', 'n']
}

/// `state-{generation:020}.json`.
pub open spec fn generation_name_spec(generation: u64) -> Seq<char> {
    name_prefix() + zero_pad(dec_string(generation as nat), 20) + name_suffix()
}

pub fn generation_file_name(generation: u64) -> (r: String)
    ensures
        r@ == generation_name_spec(generation),
{
    let digits = decimal_chars(generation);
    let mut out: Vec<char> = Vec::new();
    out.push('s');
    out.push('t');
    out.push('a');
    out.push('t');
    out.push('e');
    out.push('-');
    let mut k: usize = digits.len();
    while k < 20
        invariant
            digits.len() <= k <= 20 || (digits.len() > 20 && k == digits.len()),
            out@ == name_prefix() + zeros((k - digits.len()) as nat),
        decreases 20 - k,
    {
        out.push('0');
        k += 1;
        assert(out@ =~= name_prefix() + zeros((k - digits.len()) as nat));
    }
    let mut i: usize = 0;
    let ghost padded = out@;
    while i < digits.len()
        invariant
            i <= digits@.len(),
            out@ == padded + digits@.take(i as int),
        decreases digits.len() - i,
    {
        out.push(digits[i]);
        i += 1;
        assert(out@ =~= padded + digits@.take(i as int));
    }
    assert(digits@.take(digits@.len() as int) =~= digits@);
    out.push('.');
    out.push('j');
    out.push('s');
    out.push('o');
    out.push('n');
    proof {
        if digits@.len() < 20 {
            assert(padded =~= name_prefix() + zeros((20 - digits@.len()) as nat));
        } else {
            assert(padded =~= name_prefix() + zeros(0));
        }
    }
    assert(out@ =~= generation_name_spec(generation));
    string_of(&out)
}

/// The number part of a generation file name: what lies between `state-`
/// and `.json`; nothing for a name of another shape.
pub open spec fn generation_number(name: Seq<char>) -> Option<Seq<char>> {
    if name.len() >= 11 && name.take(6) == name_prefix() && name.skip(name.len() - 5) == name_suffix() {
        Some(name.subrange(6, name.len() - 5))
    } else {
        None
    }
}

/// A file of the directory is a generation when named like one; its number
/// must then parse, or the directory is refused.
pub open spec fn parse_name_spec(name: Seq<char>) -> Option<Result<u64, StoreError>> {
    match generation_number(name) {
        None => None,
        Some(d) => Some(match u64_parse_spec(d) {
            Some(g) => Ok(g),
            None => Err(StoreError::GenerationName),
        }),
    }
}

fn has_generation_shape(n: &[char]) -> (r: bool)
    ensures
        r == (n@.len() >= 11 && n@.take(6) == name_prefix() && n@.skip(n@.len() - 5) == name_suffix()),
{
    let len = n.len();
    if len < 11 {
        return false;
    }
    let ok = n[0] == 's' && n[1] == 't' && n[2] == 'a' && n[3] == 't' && n[4] == 'e' && n[5] == '-'
        && n[len - 5] == '.' && n[len - 4] == 'j' && n[len - 3] == 's' && n[len - 2] == 'o'
        && n[len - 1] == 'n';
    proof {
        if ok {
            assert(n@.take(6) =~= name_prefix());
            assert(n@.skip(len - 5) =~= name_suffix());
        } else {
            if n@.take(6) == name_prefix() && n@.skip(len - 5) == name_suffix() {
                assert(n@.take(6)[0] == n@[0]);
                assert(n@.take(6)[1] == n@[1]);
                assert(n@.take(6)[2] == n@[2]);
                assert(n@.take(6)[3] == n@[3]);
                assert(n@.take(6)[4] == n@[4]);
                assert(n@.take(6)[5] == n@[5]);
                assert(n@.skip(len - 5)[0] == n@[len - 5]);
                assert(n@.skip(len - 5)[1] == n@[len - 4]);
                assert(n@.skip(len - 5)[2] == n@[len - 3]);
                assert(n@.skip(len - 5)[3] == n@[len - 2]);
                assert(n@.skip(len - 5)[4] == n@[len - 1]);
            }
        }
    }
    ok
}

/// Reads a directory entry's name (see [`parse_name_spec`]).
pub fn parse_generation_name(name: &str) -> (r: Option<Result<u64, StoreError>>)
    ensures
        r == parse_name_spec(name@),
{
    let n = chars_of(name);
    if !has_generation_shape(&n) {
        return None;
    }
    let len = n.len();
    let mut d: Vec<char> = Vec::new();
    let mut i: usize = 6;
    while i < len - 5
        invariant
            6 <= i <= len - 5,
            len == n@.len(),
            len >= 11,
            d@ == n@.subrange(6, i as int),
        decreases len - 5 - i,
    {
        d.push(n[i]);
        i += 1;
        assert(d@ =~= n@.subrange(6, i as int));
    }
    match parse_u64(&d) {
        Some(g) => Some(Ok(g)),
        None => Some(Err(StoreError::GenerationName)),
    }
}

/// The view of a directory listing: generation and file name.
pub open spec fn entries_view(v: Seq<(u64, String)>) -> Seq<(u64, Seq<char>)> {
    v.map_values(|e: (u64, String)| (e.0, e.1@))
}

/// Where an entry with generation `g` goes: after every entry from the end
/// of `s` back to the last one not above `g`.
pub open spec fn upper_bound(s: Seq<(u64, Seq<char>)>, g: u64) -> int
    decreases s.len(),
{
    if s.len() == 0 {
        0
    } else if s.last().0 <= g {
        s.len() as int
    } else {
        upper_bound(s.drop_last(), g)
    }
}

/// Insertion sort by generation: stable, so equal generations keep the
/// order they were listed in.
pub open spec fn sort_spec(s: Seq<(u64, Seq<char>)>) -> Seq<(u64, Seq<char>)>
    decreases s.len(),
{
    if s.len() == 0 {
        s
    } else {
        let t = sort_spec(s.drop_last());
        t.insert(upper_bound(t, s.last().0), s.last())
    }
}

pub open spec fn sorted_by_generation(s: Seq<(u64, Seq<char>)>) -> bool {
    forall|i: int, j: int| 0 <= i < j < s.len() ==> (#[trigger] s[i]).0 <= (#[trigger] s[j]).0
}

proof fn lemma_upper_bound(s: Seq<(u64, Seq<char>)>, g: u64)
    requires
        sorted_by_generation(s),
    ensures
        0 <= upper_bound(s, g) <= s.len(),
        forall|i: int| 0 <= i < upper_bound(s, g) ==> (#[trigger] s[i]).0 <= g,
        forall|i: int| upper_bound(s, g) <= i < s.len() ==> (#[trigger] s[i]).0 > g,
    decreases s.len(),
{
    if s.len() > 0 {
        if s.last().0 <= g {
        } else {
            let t = s.drop_last();
            assert(sorted_by_generation(t)) by {
                assert forall|i: int, j: int| 0 <= i < j < t.len() implies (#[trigger] t[i]).0 <= (#[trigger] t[j]).0 by {
                    assert(t[i] == s[i] && t[j] == s[j]);
                }
            }
            lemma_upper_bound(t, g);
            assert forall|i: int| upper_bound(s, g) <= i < s.len() implies (#[trigger] s[i]).0 > g by {
                if i < s.len() - 1 {
                    assert(s[i] == t[i]);
                }
            }
            assert forall|i: int| 0 <= i < upper_bound(s, g) implies (#[trigger] s[i]).0 <= g by {
                assert(s[i] == t[i]);
            }
        }
    }
}

proof fn lemma_sort_spec(s: Seq<(u64, Seq<char>)>)
    ensures
        sorted_by_generation(sort_spec(s)),
        sort_spec(s).len() == s.len(),
    decreases s.len(),
{
    if s.len() > 0 {
        let t = sort_spec(s.drop_last());
        lemma_sort_spec(s.drop_last());
        let g = s.last().0;
        lemma_upper_bound(t, g);
        let p = upper_bound(t, g);
        let r = t.insert(p, s.last());
        assert forall|i: int, j: int| 0 <= i < j < r.len() implies (#[trigger] r[i]).0 <= (#[trigger] r[j]).0 by {
            if j < p {
                assert(r[i] == t[i] && r[j] == t[j]);
            } else if j == p {
                assert(r[i] == t[i]);
            } else if i == p {
                assert(r[j] == t[j - 1]);
            } else if i < p {
                assert(r[i] == t[i] && r[j] == t[j - 1]);
            } else {
                assert(r[i] == t[i - 1] && r[j] == t[j - 1]);
            }
        }
    }
}

/// Orders a directory listing by generation (see [`sort_spec`]).
pub fn sort_generations(entries: &[(u64, String)]) -> (r: Vec<(u64, String)>)
    ensures
        entries_view(r@) == sort_spec(entries_view(entries@)),
        sorted_by_generation(entries_view(r@)),
        r@.len() == entries@.len(),
{
    let mut out: Vec<(u64, String)> = Vec::new();
    let mut i: usize = 0;
    while i < entries.len()
        invariant
            i <= entries@.len(),
            entries_view(out@) == sort_spec(entries_view(entries@).take(i as int)),
        decreases entries.len() - i,
    {
        let g = entries[i].0;
        let name = entries[i].1.clone();
        let ghost s = entries_view(entries@).take(i + 1);
        assert(s.drop_last() =~= entries_view(entries@).take(i as int));
        assert(s.last() == (g, name@));
        let mut p: usize = out.len();
        assert(entries_view(out@).take(p as int) =~= entries_view(out@));
        while p > 0 && out[p - 1].0 > g
            invariant
                p <= out@.len(),
                upper_bound(entries_view(out@), g) == upper_bound(entries_view(out@).take(p as int), g),
            decreases p,
        {
            let ghost t = entries_view(out@).take(p as int);
            assert(t.drop_last() =~= entries_view(out@).take(p - 1));
            p -= 1;
        }
        proof {
            let t = entries_view(out@).take(p as int);
            if p > 0 {
                assert(t.last() == entries_view(out@)[p - 1]);
            }
        }
        let ghost before = entries_view(out@);
        out.insert(p, (g, name));
        assert(entries_view(out@) =~= before.insert(p as int, (g, name@)));
        i += 1;
    }
    assert(entries_view(entries@).take(entries@.len() as int) =~= entries_view(entries@));
    proof {
        lemma_sort_spec(entries_view(entries@));
    }
    out
}

/// The files a commit leaves for deletion: every generation but the newest
/// two of a listing ordered by generation.
pub fn superseded(sorted: &[(u64, String)]) -> (r: Vec<String>)
    ensures
        r@.len() == (if sorted@.len() >= 2 { sorted@.len() - 2 } else { 0 }),
        forall|i: int| 0 <= i < r@.len() ==> (#[trigger] r@[i])@ == sorted@[i].1@,
{
    let keep: usize = if sorted.len() >= 2 { sorted.len() - 2 } else { 0 };
    let mut r: Vec<String> = Vec::new();
    let mut i: usize = 0;
    while i < keep
        invariant
            keep <= sorted@.len(),
            keep == (if sorted@.len() >= 2 { sorted@.len() - 2 } else { 0 }),
            i <= keep,
            r@.len() == i,
            forall|j: int| 0 <= j < i ==> (#[trigger] r@[j])@ == sorted@[j].1@,
        decreases keep - i,
    {
        r.push(sorted[i].1.clone());
        i += 1;
    }
    r
}

proof fn lemma_dec_value_push(s: Seq<char>, c: char)
    ensures
        dec_value(s.push(c)) == dec_value(s) * 10 + ((c as u32) - 48) as nat,
{
    assert(s.push(c).drop_last() =~= s);
}

proof fn lemma_dec_string(n: nat)
    ensures
        is_digit_seq(dec_string(n)),
        dec_value(dec_string(n)) == n,
        dec_string(n).len() >= 1,
    decreases n,
{
    if n < 10 {
        assert(dec_string(n).drop_last() =~= Seq::<char>::empty());
        assert((digit_char(n) as u32) == n + 48);
        assert(dec_value(Seq::<char>::empty()) == 0);
        assert(dec_string(n) == seq![digit_char(n)]);
        assert(dec_value(dec_string(n)) == dec_value(Seq::<char>::empty()) * 10 + ((digit_char(n) as u32) - 48) as nat);
    } else {
        lemma_dec_string(n / 10);
        assert((digit_char(n % 10) as u32) == n % 10 + 48);
        assert((n / 10) * 10 + n % 10 == n);

        lemma_dec_value_push(dec_string(n / 10), digit_char(n % 10));
        assert forall|i: int| 0 <= i < dec_string(n).len() implies is_ascii_digit(#[trigger] dec_string(n)[i]) by {
            if i < dec_string(n / 10).len() {
                assert(dec_string(n)[i] == dec_string(n / 10)[i]);
            }
        }
    }
}

proof fn lemma_leading_zeros(z: nat, s: Seq<char>)
    ensures
        dec_value(zeros(z) + s) == dec_value(s),
        is_digit_seq(s) ==> is_digit_seq(zeros(z) + s),
    decreases s.len() + z,
{
    if s.len() > 0 {
        lemma_leading_zeros(z, s.drop_last());
        assert((zeros(z) + s).drop_last() =~= zeros(z) + s.drop_last());
        assert((zeros(z) + s).last() == s.last());
    } else if z > 0 {
        lemma_leading_zeros((z - 1) as nat, s);
        assert((zeros(z) + s).drop_last() =~= zeros((z - 1) as nat) + s);
        assert((zeros(z) + s).last() == '0');
    } else {
        assert(zeros(z) + s =~= s);
    }
    if is_digit_seq(s) {
        assert forall|i: int| 0 <= i < (zeros(z) + s).len() implies is_ascii_digit(#[trigger] (zeros(z) + s)[i]) by {
            if i >= z {
                assert((zeros(z) + s)[i] == s[i - z]);
            }
        }
    }
}

/// Law: a generation's file name reads back as that generation.
pub proof fn law_generation_names_round_trip(generation: u64)
    ensures
        parse_name_spec(generation_name_spec(generation)) == Some(Ok::<u64, StoreError>(generation)),
{
    let ds = dec_string(generation as nat);
    lemma_dec_string(generation as nat);
    let p = zero_pad(ds, 20);
    if ds.len() < 20 {
        lemma_leading_zeros((20 - ds.len()) as nat, ds);
    }
    let name = generation_name_spec(generation);
    assert(name.take(6) =~= name_prefix());
    assert(name.skip(name.len() - 5) =~= name_suffix());
    assert(name.subrange(6, name.len() - 5) =~= p);
    assert(p.len() > 0);
    assert(is_ascii_digit(p[0]));
}

/// Law: ordering a listing that is already in generation order changes
/// nothing.
pub proof fn law_sorted_listing_is_stable_under_resorting(s: Seq<(u64, Seq<char>)>)
    requires
        sorted_by_generation(s),
    ensures
        sort_spec(s) == s,
    decreases s.len(),
{
    if s.len() > 0 {
        let t = s.drop_last();
        assert(sorted_by_generation(t)) by {
            assert forall|i: int, j: int| 0 <= i < j < t.len() implies (#[trigger] t[i]).0 <= (#[trigger] t[j]).0 by {
                assert(t[i] == s[i] && t[j] == s[j]);
            }
        }
        law_sorted_listing_is_stable_under_resorting(t);
        if t.len() > 0 {
            assert(t.last() == s[s.len() - 2]);
        }
        assert(upper_bound(t, s.last().0) == t.len());
        assert(t.insert(t.len() as int, s.last()) =~= s);
    }
}

} // verus!
