//! Hub-side dispatch: checking a dispatch request's limits, and the
//! admission book that makes executed dispatches idempotent and keeps two
//! requests from booking the same headroom.
//!
//! Routing itself (which node serves a model) is the placement engine's; the
//! book hands it the VRAM already reserved per node and records what it
//! chose. A request retried with the same `request_id` and the same body
//! replays the first admission; reused with a different body it is refused.
//! Reservations expire after [`ADMISSION_TTL_MS`]; a failed one stops
//! counting against its node at once but still answers replays.
use vstd::prelude::*;
use vstd::utf8::encode_utf8;
use crate::keyed::{
    key_find, key_lower_bound, key_put, keys_sorted, lemma_key_find, lemma_key_lower_bound,
    lemma_key_put, lemma_key_unique, lemma_key_update,
};
use crate::text::{
    chars_eq, chars_eq_str, chars_lt, chars_of, dec_string, decimal_chars, lex_lt, push_chars,
    push_str_chars, string_of, trim, trim_chars,
};

verus! {

/// How long an admission holds its reservation (ms).
pub const ADMISSION_TTL_MS: u64 = 45_000;
/// The most admissions the book holds at once.
pub const MAX_ADMISSIONS: usize = 4096;

/// The limits of a dispatch request that the hub checks before routing.
/// (The model's size estimate and the placement preferences are the
/// placement engine's.)
pub struct DispatchBody {
    pub model: String,
    pub quant: String,
    /// `inference` (the default), `training` or `train`.
    pub task: Option<String>,
    pub min_tier: Option<u8>,
    pub execute: bool,
    pub port: u16,
    pub priority: u8,
    pub expected_output_tokens: u32,
    pub deadline_ms: Option<u64>,
    pub protocol_major: u16,
    pub session_affinity: Option<String>,
    pub request_id: Option<String>,
}

pub open spec fn opt_str(o: Option<String>) -> Option<Seq<char>> {
    match o {
        Some(s) => Some(s@),
        None => None,
    }
}

/// The first limit a request breaks, in the order they are checked;
/// `quant_known` is whether the placement engine knows the quantization.
pub open spec fn dispatch_error(b: DispatchBody, quant_known: bool) -> Option<Seq<char>> {
    if trim(b.model@).len() == 0 || encode_utf8(b.model@).len() > 512 {
        Some("model must be 1..=512 bytes"@)
    } else if !quant_known {
        Some("unsupported quant '"@ + b.quant@ + "'"@)
    } else if b.task is Some && !(b.task->0@ == "inference"@ || b.task->0@ == "training"@ || b.task->0@ == "train"@) {
        Some("task must be inference or training"@)
    } else if b.min_tier matches Some(t) && !(1 <= t <= 3) {
        Some("min_tier must be 1, 2, or 3"@)
    } else if b.execute && b.port == 0 {
        Some("port must be non-zero when execute is true"@)
    } else if b.priority > 9 {
        Some("priority must be between 0 and 9"@)
    } else if b.expected_output_tokens == 0 || b.expected_output_tokens > 1_000_000 {
        Some("expected_output_tokens must be between 1 and 1000000"@)
    } else if b.deadline_ms == Some(0u64) {
        Some("deadline_ms must be positive"@)
    } else if b.protocol_major == 0 {
        Some("protocol_major must be positive"@)
    } else if b.session_affinity matches Some(s) && (s@.len() == 0 || encode_utf8(s@).len() > 256) {
        Some("session_affinity must be 1..=256 bytes when present"@)
    } else if b.request_id matches Some(s) && (s@.len() == 0 || encode_utf8(s@).len() > 128) {
        Some("request_id must be 1..=128 bytes when present"@)
    } else {
        None
    }
}

impl DispatchBody {
    /// Rejects ambiguous or resource-amplifying requests before the roster
    /// is looked at (see [`dispatch_error`]).
    pub fn validate(&self, quant_known: bool) -> (r: Result<(), String>)
        ensures
            match r {
                Ok(()) => dispatch_error(*self, quant_known) is None,
                Err(e) => dispatch_error(*self, quant_known) == Some(e@),
            },
    {
        let m = trim_chars(&chars_of(self.model.as_str()));
        if m.len() == 0 || self.model.as_str().as_bytes().len() > 512 {
            return Err(String::from_str("model must be 1..=512 bytes"));
        }
        if !quant_known {
            let mut v = chars_of("unsupported quant '");
            push_str_chars(&mut v, self.quant.as_str());
            push_str_chars(&mut v, "'");
            return Err(string_of(&v));
        }
        match &self.task {
            Some(t) => {
                let c = chars_of(t.as_str());
                if !(chars_eq_str(&c, "inference") || chars_eq_str(&c, "training") || chars_eq_str(&c, "train")) {
                    return Err(String::from_str("task must be inference or training"));
                }
            },
            None => {},
        }
        match self.min_tier {
            Some(t) => {
                if !(1 <= t && t <= 3) {
                    return Err(String::from_str("min_tier must be 1, 2, or 3"));
                }
            },
            None => {},
        }
        if self.execute && self.port == 0 {
            return Err(String::from_str("port must be non-zero when execute is true"));
        }
        if self.priority > 9 {
            return Err(String::from_str("priority must be between 0 and 9"));
        }
        if self.expected_output_tokens == 0 || self.expected_output_tokens > 1_000_000 {
            return Err(String::from_str("expected_output_tokens must be between 1 and 1000000"));
        }
        if self.deadline_ms == Some(0u64) {
            return Err(String::from_str("deadline_ms must be positive"));
        }
        if self.protocol_major == 0 {
            return Err(String::from_str("protocol_major must be positive"));
        }
        match &self.session_affinity {
            Some(s) => {
                if s.as_str().is_empty() || s.as_str().as_bytes().len() > 256 {
                    return Err(String::from_str("session_affinity must be 1..=256 bytes when present"));
                }
            },
            None => {},
        }
        match &self.request_id {
            Some(s) => {
                if s.as_str().is_empty() || s.as_str().as_bytes().len() > 128 {
                    return Err(String::from_str("request_id must be 1..=128 bytes when present"));
                }
            },
            None => {},
        }
        Ok(())
    }
}

/// Law of request validation: the three task names a dispatch may carry,
/// `inference`, `training` and `train`, are all accepted, and a request
/// naming one of them is judged exactly as the same request with no task
/// (which means inference); any other task name is refused with
/// `task must be inference or training` once the model and quantization
/// are acceptable.
pub proof fn law_named_tasks_validate_like_the_default(b: DispatchBody, named: DispatchBody, quant_known: bool)
    requires
        b.task is None,
        named.model == b.model,
        named.quant == b.quant,
        named.min_tier == b.min_tier,
        named.execute == b.execute,
        named.port == b.port,
        named.priority == b.priority,
        named.expected_output_tokens == b.expected_output_tokens,
        named.deadline_ms == b.deadline_ms,
        named.protocol_major == b.protocol_major,
        named.session_affinity == b.session_affinity,
        named.request_id == b.request_id,
        named.task is Some,
    ensures
        (named.task->0@ == "inference"@ || named.task->0@ == "training"@ || named.task->0@ == "train"@)
            ==> dispatch_error(named, quant_known) == dispatch_error(b, quant_known),
        !(named.task->0@ == "inference"@ || named.task->0@ == "training"@ || named.task->0@ == "train"@)
            && dispatch_error(b, quant_known) != Some("model must be 1..=512 bytes"@)
            && quant_known
            ==> dispatch_error(named, quant_known) == Some("task must be inference or training"@),
{
}

/// Where an admission stands.
#[derive(Debug, Clone, Copy, PartialEq, Eq, Structural)]
pub enum AdmissionState {
    Reserved,
    Committed,
    Failed,
}

impl AdmissionState {
    /// The name an admission's state is reported under.
    pub fn label(&self) -> (r: &'static str)
        ensures
            r@ == match *self {
                AdmissionState::Reserved => "reserved"@,
                AdmissionState::Committed => "committed"@,
                AdmissionState::Failed => "failed"@,
            },
    {
        match self {
            AdmissionState::Reserved => "reserved",
            AdmissionState::Committed => "committed",
            AdmissionState::Failed => "failed",
        }
    }
}

/// A reservation of headroom on a node for one executed dispatch.
#[derive(Debug)]
pub struct AdmissionLease {
    pub id: String,
    pub request_id: String,
    pub node_id: String,
    pub model: String,
    pub reserved_vram_bytes: u64,
    pub expires_in_ms: u64,
    pub state: AdmissionState,
}

pub struct LeaseView {
    pub id: Seq<char>,
    pub request_id: Seq<char>,
    pub node_id: Seq<char>,
    pub model: Seq<char>,
    pub reserved_vram_bytes: u64,
    pub expires_in_ms: u64,
    pub state: AdmissionState,
}

impl View for AdmissionLease {
    type V = LeaseView;

    open spec fn view(&self) -> LeaseView {
        LeaseView {
            id: self.id@,
            request_id: self.request_id@,
            node_id: self.node_id@,
            model: self.model@,
            reserved_vram_bytes: self.reserved_vram_bytes,
            expires_in_ms: self.expires_in_ms,
            state: self.state,
        }
    }
}

impl AdmissionLease {
    pub fn copy(&self) -> (r: AdmissionLease)
        ensures
            r@ == self@,
    {
        AdmissionLease {
            id: self.id.clone(),
            request_id: self.request_id.clone(),
            node_id: self.node_id.clone(),
            model: self.model.clone(),
            reserved_vram_bytes: self.reserved_vram_bytes,
            expires_in_ms: self.expires_in_ms,
            state: self.state,
        }
    }
}

/// One admission as the book holds it: the body it was made for (as the
/// text that identifies it), its lease, and when it expires (clock ms).
pub struct BookEntry {
    pub fingerprint: Seq<char>,
    pub lease: LeaseView,
    pub expires: u64,
}

pub type Admission = (Seq<char>, BookEntry);

/// Whether an admission still holds its node's headroom.
pub open spec fn holds_headroom(s: AdmissionState) -> bool {
    s == AdmissionState::Reserved || s == AdmissionState::Committed
}

/// The admissions that have not expired at `now`.
pub open spec fn live(v: Seq<Admission>, now: u64) -> Seq<Admission>
    decreases v.len(),
{
    if v.len() == 0 {
        v
    } else if v.last().1.expires > now {
        live(v.drop_last(), now).push(v.last())
    } else {
        live(v.drop_last(), now)
    }
}

/// The headroom the admissions in `v` hold on `node`, in bytes.
pub open spec fn reserved_on(v: Seq<Admission>, node: Seq<char>) -> nat
    decreases v.len(),
{
    if v.len() == 0 {
        0
    } else if v.last().1.lease.node_id == node && holds_headroom(v.last().1.lease.state) {
        reserved_on(v.drop_last(), node) + v.last().1.lease.reserved_vram_bytes as nat
    } else {
        reserved_on(v.drop_last(), node)
    }
}

/// Whether some admission in `v` holds headroom on `node`.
pub open spec fn holds_on(v: Seq<Admission>, node: Seq<char>) -> bool {
    exists|i: int| 0 <= i < v.len() && (#[trigger] v[i]).1.lease.node_id == node && holds_headroom(v[i].1.lease.state)
}

pub open spec fn sat(n: nat) -> u64 {
    if n > u64::MAX { u64::MAX } else { n as u64 }
}

/// What the router is handed: per node holding headroom, in node order, the
/// bytes held (saturated to `u64`).
pub open spec fn reserved_table_ok(v: Seq<Admission>, t: Seq<(Seq<char>, u64)>) -> bool {
    &&& keys_sorted(t)
    &&& forall|node: Seq<char>| #[trigger] key_find(t, node) is Some <==> holds_on(v, node)
    &&& forall|i: int| 0 <= i < t.len() ==> (#[trigger] t[i]).1 == sat(reserved_on(v, t[i].0))
}

pub open spec fn conflict_message(request_id: Seq<char>) -> Seq<char> {
    "request_id '"@ + request_id + "' was already used with a different dispatch body"@
}

pub open spec fn capacity_message() -> Seq<char> {
    "admission ledger is full; retry after a lease expires"@
}

/// What the book says when a dispatch begins.
pub enum Begin<D> {
    /// The request id was admitted before with the same body: answer with
    /// the first admission again.
    Replay { node_id: String, choice: D, lease: AdmissionLease },
    /// The request id was admitted before with a different body.
    Conflict(String),
    /// Route it: the headroom already reserved, per node in node order.
    Route(Vec<(String, u64)>),
}

/// What beginning a dispatch comes to (see [`AdmissionBook::begin_at`]).
pub enum BeginView {
    Replay(LeaseView),
    Conflict(Seq<char>),
    Route,
}

pub open spec fn begin_spec(v: Seq<Admission>, request_id: Option<Seq<char>>, fingerprint: Seq<char>, now: u64) -> BeginView {
    let p = live(v, now);
    match request_id {
        Some(r) => match key_find(p, r) {
            Some(i) => if p[i].1.fingerprint != fingerprint {
                BeginView::Conflict(conflict_message(r))
            } else {
                BeginView::Replay(p[i].1.lease)
            },
            None => BeginView::Route,
        },
        None => BeginView::Route,
    }
}

struct Reservation<D> {
    fingerprint: String,
    choice: D,
    lease: AdmissionLease,
    expires: u64,
}

spec fn reservation_view<D>(r: Reservation<D>) -> Admission {
    (r.lease.request_id@, BookEntry { fingerprint: r.fingerprint@, lease: r.lease@, expires: r.expires })
}

spec fn book_view<D>(v: Seq<Reservation<D>>) -> Seq<Admission> {
    v.map_values(|r: Reservation<D>| reservation_view(r))
}

/// The admission book: live admissions keyed by request id, in order.
pub struct AdmissionBook<D> {
    entries: Vec<Reservation<D>>,
    next_id: u64,
}

/// The first admission (in request-id order) whose lease has id `id`.
pub open spec fn first_with_id(v: Seq<Admission>, id: Seq<char>) -> Option<int>
    decreases v.len(),
{
    if v.len() == 0 {
        None
    } else {
        match first_with_id(v.drop_last(), id) {
            Some(i) => Some(i),
            None => if v.last().1.lease.id == id { Some(v.len() - 1) } else { None },
        }
    }
}

pub open spec fn finish_spec(v: Seq<Admission>, id: Seq<char>, success: bool) -> Seq<Admission> {
    match first_with_id(v, id) {
        Some(i) => v.update(i, (v[i].0, BookEntry {
            lease: LeaseView {
                state: if success { AdmissionState::Committed } else { AdmissionState::Failed },
                ..v[i].1.lease
            },
            ..v[i].1
        })),
        None => v,
    }
}

/// The request id an admission is filed under: the caller's, else one made
/// from the book's serial number.
pub open spec fn filed_id(request_id: Option<Seq<char>>, serial: u64) -> Seq<char> {
    match request_id {
        Some(r) => r,
        None => "legacy-"@ + dec_string(serial as nat),
    }
}

pub open spec fn sat_add(a: u64, b: u64) -> u64 {
    if a + b > u64::MAX { u64::MAX } else { (a + b) as u64 }
}

/// The lease an executed dispatch is given: headroom for the model unless the
/// chosen node already serves it warm.
pub open spec fn new_lease(request_id: Option<Seq<char>>, serial: u64, node_id: Seq<char>, warm: bool, model: Seq<char>, model_bytes: u64) -> LeaseView {
    LeaseView {
        id: "adm-"@ + dec_string(serial as nat),
        request_id: filed_id(request_id, serial),
        node_id,
        model,
        reserved_vram_bytes: if warm { 0 } else { model_bytes },
        expires_in_ms: ADMISSION_TTL_MS,
        state: AdmissionState::Reserved,
    }
}

proof fn lemma_live(v: Seq<Admission>, now: u64)
    requires
        keys_sorted(v),
    ensures
        keys_sorted(live(v, now)),
        live(v, now).len() <= v.len(),
        forall|i: int| #![trigger live(v, now)[i]] 0 <= i < live(v, now).len() ==> exists|j: int| 0 <= j < v.len() && live(v, now)[i] == #[trigger] v[j],
    decreases v.len(),
{
    if v.len() > 0 {
        let d = v.drop_last();
        assert(keys_sorted(d));
        lemma_live(d, now);
        let p = live(d, now);
        assert forall|i: int| #![trigger p[i]] 0 <= i < p.len() implies exists|j: int| 0 <= j < v.len() && p[i] == #[trigger] v[j] by {
            let j = choose|j: int| 0 <= j < d.len() && p[i] == #[trigger] d[j];
            assert(v[j] == d[j]);
        }
        if v.last().1.expires > now {
            let r = p.push(v.last());
            assert forall|i: int, j: int| 0 <= i < j < r.len() implies lex_lt((#[trigger] r[i]).0, (#[trigger] r[j]).0) by {
                if j == r.len() - 1 {
                    let k = choose|k: int| 0 <= k < d.len() && p[i] == #[trigger] d[k];
                    assert(v[k] == d[k]);
                    assert(lex_lt(v[k].0, v[v.len() - 1].0));
                } else {
                    assert(r[i] == p[i] && r[j] == p[j]);
                }
            }
            assert forall|i: int| #![trigger r[i]] 0 <= i < r.len() implies exists|j: int| 0 <= j < v.len() && r[i] == #[trigger] v[j] by {
                if i == r.len() - 1 {
                    assert(r[i] == v[v.len() - 1]);
                } else {
                    assert(r[i] == p[i]);
                }
            }
        }
    }
}

proof fn lemma_first_with_id(v: Seq<Admission>, id: Seq<char>)
    ensures
        match first_with_id(v, id) {
            Some(i) => 0 <= i < v.len() && v[i].1.lease.id == id && forall|k: int| 0 <= k < i ==> (#[trigger] v[k]).1.lease.id != id,
            None => forall|k: int| 0 <= k < v.len() ==> (#[trigger] v[k]).1.lease.id != id,
        },
    decreases v.len(),
{
    if v.len() > 0 {
        lemma_first_with_id(v.drop_last(), id);
        assert forall|k: int| 0 <= k < v.len() - 1 implies (#[trigger] v[k]) == v.drop_last()[k] by {}
    }
}

proof fn lemma_reserved_on_step(v: Seq<Admission>, i: int, node: Seq<char>)
    requires
        0 <= i < v.len(),
    ensures
        reserved_on(v.take(i + 1), node) == reserved_on(v.take(i), node)
            + (if v[i].1.lease.node_id == node && holds_headroom(v[i].1.lease.state) { v[i].1.lease.reserved_vram_bytes as nat } else { 0nat }),
{
    assert(v.take(i + 1).drop_last() =~= v.take(i));
}

impl<D> AdmissionBook<D> {
    pub closed spec fn view(&self) -> Seq<Admission> {
        book_view(self.entries@)
    }

    /// The serial number the next admission will take.
    pub closed spec fn next_serial(&self) -> u64 {
        self.next_id
    }

    /// Admissions are in strictly increasing request-id order, each filed
    /// under its lease's request id, and there are at most
    /// [`MAX_ADMISSIONS`].
    pub closed spec fn wf(&self) -> bool {
        &&& keys_sorted(self.view())
        &&& self.view().len() <= MAX_ADMISSIONS
        &&& forall|i: int| 0 <= i < self.view().len() ==> (#[trigger] self.view()[i]).0 == self.view()[i].1.lease.request_id
    }

    pub fn new() -> (r: AdmissionBook<D>)
        ensures
            r.wf(),
            r.view().len() == 0,
            r.next_serial() == 1,
    {
        let r = AdmissionBook { entries: Vec::new(), next_id: 1 };
        assert(r.view() =~= Seq::<Admission>::empty());
        r
    }

    fn locate(&self, key: &[char]) -> (r: usize)
        requires
            keys_sorted(self.view()),
        ensures
            r as int == key_lower_bound(self.view(), key@),
    {
        proof {
            lemma_key_lower_bound(self.view(), key@);
        }
        let mut i: usize = 0;
        while i < self.entries.len()
            invariant
                keys_sorted(self.view()),
                i <= self.entries@.len(),
                self.view().len() == self.entries@.len(),
                i <= key_lower_bound(self.view(), key@),
                0 <= key_lower_bound(self.view(), key@) <= self.view().len(),
                forall|k: int| key_lower_bound(self.view(), key@) <= k < self.view().len() ==> !lex_lt((#[trigger] self.view()[k]).0, key@),
                forall|k: int| 0 <= k < key_lower_bound(self.view(), key@) ==> lex_lt((#[trigger] self.view()[k]).0, key@),
            decreases self.entries.len() - i,
        {
            let name = chars_of(self.entries[i].lease.request_id.as_str());
            assert(self.view()[i as int].0 == name@);
            if !chars_lt(&name, key) {
                return i;
            }
            i += 1;
        }
        i
    }

    fn find(&self, key: &[char]) -> (r: Option<usize>)
        requires
            keys_sorted(self.view()),
        ensures
            r matches Some(p) ==> key_find(self.view(), key@) == Some(p as int),
            r is None ==> key_find(self.view(), key@) is None,
    {
        let p = self.locate(key);
        if p < self.entries.len() {
            let name = chars_of(self.entries[p].lease.request_id.as_str());
            if chars_eq(&name, key) {
                return Some(p);
            }
        }
        None
    }

    /// Drops the admissions that have expired at `now`.
    fn prune(&mut self, now: u64)
        requires
            old(self).wf(),
        ensures
            final(self).wf(),
            final(self).view() == live(old(self).view(), now),
            final(self).next_serial() == old(self).next_serial(),
    {
        let ghost w = self.view();
        proof {
            lemma_live(w, now);
        }
        let mut all: Vec<Reservation<D>> = Vec::new();
        std::mem::swap(&mut all, &mut self.entries);
        assert(book_view(self.entries@) =~= live(w.take(0), now));
        let mut rest: Vec<Reservation<D>> = Vec::new();
        let n = all.len();
        let mut i: usize = 0;
        let ghost all0 = all@;
        // Take the entries out in reverse so each can be moved, then keep
        // the live ones in their order.
        while all.len() > 0
            invariant
                all@ == all0.take(all@.len() as int),
                n == all0.len(),
                book_view(all0) == w,
                rest@.len() == n - all@.len(),
                forall|k: int| 0 <= k < rest@.len() ==> #[trigger] rest@[k] == all0[n - 1 - k],
            decreases all.len(),
        {
            let e = all.pop().unwrap();
            let ghost before = rest@;
            rest.push(e);
            assert forall|k: int| 0 <= k < rest@.len() implies #[trigger] rest@[k] == all0[n - 1 - k] by {
                if k < before.len() {
                    assert(rest@[k] == before[k]);
                }
            }
        }
        while rest.len() > 0
            invariant
                n == all0.len(),
                book_view(all0) == w,
                i + rest@.len() == n,
                forall|k: int| 0 <= k < rest@.len() ==> #[trigger] rest@[k] == all0[n - 1 - k],
                book_view(self.entries@) == live(w.take(i as int), now),
                self.next_id == old(self).next_id,
            decreases rest.len(),
        {
            let e = rest.pop().unwrap();
            assert(e == all0[i as int]);
            assert(w.take(i + 1).drop_last() =~= w.take(i as int));
            assert(w.take(i + 1).last() == w[i as int]);
            if e.expires > now {
                let ghost before = self.entries@;
                self.entries.push(e);
                assert(book_view(self.entries@) =~= book_view(before).push(w[i as int]));
            }
            i += 1;
        }
        assert(w.take(n as int) =~= w);
        proof {
            assert forall|k: int| 0 <= k < self.view().len() implies (#[trigger] self.view()[k]).0 == self.view()[k].1.lease.request_id by {
                let j = choose|j: int| 0 <= j < w.len() && self.view()[k] == #[trigger] w[j];
            }
        }
    }

    /// The headroom held per node, in node order (see [`reserved_table_ok`]).
    pub fn reserved_by_node(&self) -> (r: Vec<(String, u64)>)
        requires
            self.wf(),
        ensures
            reserved_table_ok(self.view(), r@.map_values(|p: (String, u64)| (p.0@, p.1))),
    {
        let ghost w = self.view();
        let mut t: Vec<(String, u64)> = Vec::new();
        let mut i: usize = 0;
        while i < self.entries.len()
            invariant
                i <= self.entries@.len(),
                w == self.view(),
                w.len() == self.entries@.len(),
                reserved_table_ok(w.take(i as int), t@.map_values(|p: (String, u64)| (p.0@, p.1))),
            decreases self.entries.len() - i,
        {
            let ghost tv = t@.map_values(|p: (String, u64)| (p.0@, p.1));
            let e = &self.entries[i];
            let active = match e.lease.state {
                AdmissionState::Reserved => true,
                AdmissionState::Committed => true,
                AdmissionState::Failed => false,
            };
            proof {
                assert forall|node: Seq<char>| reserved_on(w.take(i + 1), node) == reserved_on(w.take(i as int), node)
                    + (if w[i as int].1.lease.node_id == node && holds_headroom(w[i as int].1.lease.state) { w[i as int].1.lease.reserved_vram_bytes as nat } else { 0nat }) by {
                    lemma_reserved_on_step(w, i as int, node);
                }
                assert forall|node: Seq<char>| holds_on(w.take(i + 1), node) == (holds_on(w.take(i as int), node)
                    || (w[i as int].1.lease.node_id == node && holds_headroom(w[i as int].1.lease.state))) by {
                    let a = w.take(i + 1);
                    let b = w.take(i as int);
                    if holds_on(b, node) {
                        let k = choose|k: int| 0 <= k < b.len() && (#[trigger] b[k]).1.lease.node_id == node && holds_headroom(b[k].1.lease.state);
                        assert(a[k] == b[k]);
                    }
                    if holds_on(a, node) {
                        let k = choose|k: int| 0 <= k < a.len() && (#[trigger] a[k]).1.lease.node_id == node && holds_headroom(a[k].1.lease.state);
                        if k < i {
                            assert(a[k] == b[k]);
                        }
                    }
                    if w[i as int].1.lease.node_id == node && holds_headroom(w[i as int].1.lease.state) {
                        assert(a[i as int] == w[i as int]);
                    }
                }
            }
            if active {
                let key = chars_of(e.lease.node_id.as_str());
                let add = e.lease.reserved_vram_bytes;
                // Find the node's row, or where it goes.
                let mut p: usize = 0;
                proof {
                    lemma_key_lower_bound(tv, key@);
                    lemma_key_find(tv, key@);
                }
                while p < t.len()
                    invariant
                        p <= t@.len(),
                        tv == t@.map_values(|q: (String, u64)| (q.0@, q.1)),
                        keys_sorted(tv),
                        p <= key_lower_bound(tv, key@),
                        0 <= key_lower_bound(tv, key@) <= tv.len(),
                        forall|k: int| key_lower_bound(tv, key@) <= k < tv.len() ==> !lex_lt((#[trigger] tv[k]).0, key@),
                        forall|k: int| 0 <= k < key_lower_bound(tv, key@) ==> lex_lt((#[trigger] tv[k]).0, key@),
                    ensures
                        p as int == key_lower_bound(tv, key@),
                    decreases t.len() - p,
                {
                    let name = chars_of(t[p].0.as_str());
                    assert(tv[p as int].0 == name@);
                    if !chars_lt(&name, &key) {
                        break;
                    }
                    p += 1;
                }
                let found = if p < t.len() {
                    let name = chars_of(t[p].0.as_str());
                    chars_eq(&name, &key)
                } else {
                    false
                };
                if found {
                    let cur = t[p].1;
                    let name = t[p].0.clone();
                    let total = cur.saturating_add(add);
                    t.set(p, (name, total));
                    proof {
                        assert(key_find(tv, key@) == Some(p as int));
                        let nv = t@.map_values(|q: (String, u64)| (q.0@, q.1));
                        assert(nv =~= tv.update(p as int, (key@, total)));
                        lemma_key_update(tv, p as int, total);
                        assert forall|node: Seq<char>| #[trigger] key_find(nv, node) is Some <==> holds_on(w.take(i + 1), node) by {
                            lemma_key_find(nv, node);
                            lemma_key_find(tv, node);
                            if key_find(tv, node) is Some {
                                let k = key_find(tv, node).unwrap();
                                lemma_key_unique(nv, k);
                            }
                            if key_find(nv, node) is Some {
                                let k = key_find(nv, node).unwrap();
                                lemma_key_unique(tv, k);
                            }
                        }
                        assert forall|k: int| 0 <= k < nv.len() implies (#[trigger] nv[k]).1 == sat(reserved_on(w.take(i + 1), nv[k].0)) by {
                            if k != p {
                                assert(nv[k] == tv[k]);
                                lemma_key_unique(tv, p as int);
                            }
                        }
                    }
                } else {
                    proof {
                        assert(key_find(tv, key@) is None);
                        assert(!holds_on(w.take(i as int), key@));
                        assert(reserved_on(w.take(i as int), key@) == 0) by {
                            lemma_reserved_zero(w.take(i as int), key@);
                        }
                    }
                    let name = e.lease.node_id.clone();
                    t.insert(p, (name, add));
                    proof {
                        let nv = t@.map_values(|q: (String, u64)| (q.0@, q.1));
                        assert(nv =~= tv.insert(p as int, (key@, add)));
                        assert(nv == key_put(tv, key@, add));
                        lemma_key_put(tv, key@, add);
                        assert forall|node: Seq<char>| #[trigger] key_find(nv, node) is Some <==> holds_on(w.take(i + 1), node) by {
                            lemma_key_find(nv, node);
                            lemma_key_find(tv, node);
                            if key_find(tv, node) is Some {
                                let k = key_find(tv, node).unwrap();
                                let k2 = if k < p { k } else { k + 1 };
                                assert(nv[k2] == tv[k]);
                                lemma_key_unique(nv, k2);
                            }
                            if key_find(nv, node) is Some {
                                let k = key_find(nv, node).unwrap();
                                if k < p {
                                    assert(nv[k] == tv[k]);
                                    lemma_key_unique(tv, k);
                                } else if k > p {
                                    assert(nv[k] == tv[k - 1]);
                                    lemma_key_unique(tv, k - 1);
                                }
                            }
                        }
                        assert forall|k: int| 0 <= k < nv.len() implies (#[trigger] nv[k]).1 == sat(reserved_on(w.take(i + 1), nv[k].0)) by {
                            if k < p {
                                assert(nv[k] == tv[k]);
                            } else if k > p {
                                assert(nv[k] == tv[k - 1]);
                            }
                        }
                    }
                }
            } else {
                proof {
                    assert(t@.map_values(|q: (String, u64)| (q.0@, q.1)) == tv);
                }
            }
            i += 1;
        }
        assert(w.take(w.len() as int) =~= w);
        t
    }
}

impl<D: Clone> AdmissionBook<D> {
    /// Begins a dispatch at `now` (clock ms): expired admissions are dropped;
    /// a request id admitted before is replayed (same body) or refused
    /// (different body); anything else is to be routed, and the router is
    /// handed the headroom already reserved per node.
    pub fn begin_at(&mut self, request_id: Option<&str>, fingerprint: &str, now: u64) -> (r: Begin<D>)
        requires
            old(self).wf(),
        ensures
            final(self).wf(),
            final(self).next_serial() == old(self).next_serial(),
            final(self).view() == live(old(self).view(), now),
            match begin_spec(old(self).view(), match request_id { Some(x) => Some(x@), None => None }, fingerprint@, now) {
                BeginView::Replay(l) => r matches Begin::Replay { node_id, lease, .. } && lease@ == l && node_id@ == l.node_id,
                BeginView::Conflict(m) => r matches Begin::Conflict(e) && e@ == m,
                BeginView::Route => r matches Begin::Route(t) && reserved_table_ok(final(self).view(), t@.map_values(|p: (String, u64)| (p.0@, p.1))),
            },
    {
        self.prune(now);
        match request_id {
            Some(rid) => {
                let key = chars_of(rid);
                match self.find(&key) {
                    Some(i) => {
                        let e = &self.entries[i];
                        let fp = chars_of(e.fingerprint.as_str());
                        let given = chars_of(fingerprint);
                        if !chars_eq(&fp, &given) {
                            let mut m = chars_of("request_id '");
                            push_str_chars(&mut m, rid);
                            push_str_chars(&mut m, "' was already used with a different dispatch body");
                            return Begin::Conflict(string_of(&m));
                        }
                        return Begin::Replay {
                            node_id: e.lease.node_id.clone(),
                            choice: e.choice.clone(),
                            lease: e.lease.copy(),
                        };
                    },
                    None => {},
                }
            },
            None => {},
        }
        Begin::Route(self.reserved_by_node())
    }

    /// Files an executed dispatch routed to `node_id` at `now`: refused when
    /// the book is full; otherwise the next serial number names the lease
    /// (and the request, when the caller gave no id), the lease reserves the
    /// model's bytes unless the node already serves it warm, and it expires
    /// [`ADMISSION_TTL_MS`] from now.
    pub fn reserve_at(&mut self, request_id: Option<&str>, fingerprint: &str, node_id: &str, warm: bool, model: &str, model_bytes: u64, choice: D, now: u64) -> (r: Result<AdmissionLease, String>)
        requires
            old(self).wf(),
        ensures
            final(self).wf(),
            match r {
                Ok(lease) => {
                    &&& old(self).view().len() < MAX_ADMISSIONS
                    &&& lease@ == new_lease(match request_id { Some(x) => Some(x@), None => None }, old(self).next_serial(), node_id@, warm, model@, model_bytes)
                    &&& final(self).view() == key_put(old(self).view(), lease@.request_id,
                        BookEntry { fingerprint: fingerprint@, lease: lease@, expires: sat_add(now, ADMISSION_TTL_MS) })
                    &&& final(self).next_serial() == (if old(self).next_serial() == u64::MAX { 0 } else { (old(self).next_serial() + 1) as u64 })
                },
                Err(e) => {
                    &&& old(self).view().len() >= MAX_ADMISSIONS
                    &&& e@ == capacity_message()
                    &&& final(self).view() == old(self).view()
                    &&& final(self).next_serial() == old(self).next_serial()
                },
            },
    {
        if self.entries.len() >= MAX_ADMISSIONS {
            return Err(String::from_str("admission ledger is full; retry after a lease expires"));
        }
        let serial = self.next_id;
        self.next_id = if serial == u64::MAX { 0 } else { serial + 1 };
        let lease = make_lease(request_id, serial, node_id, warm, model, model_bytes);
        let result = lease.copy();
        let expires = now.saturating_add(ADMISSION_TTL_MS);
        let res = Reservation { fingerprint: String::from_str(fingerprint), choice, lease, expires };
        self.file(res);
        Ok(result)
    }

    /// Files a reservation under its request id, replacing any earlier one.
    fn file(&mut self, res: Reservation<D>)
        requires
            keys_sorted(old(self).view()),
            old(self).view().len() < MAX_ADMISSIONS,
            forall|i: int| 0 <= i < old(self).view().len() ==> (#[trigger] old(self).view()[i]).0 == old(self).view()[i].1.lease.request_id,
        ensures
            final(self).wf(),
            final(self).view() == key_put(old(self).view(), reservation_view(res).0, reservation_view(res).1),
            final(self).next_serial() == old(self).next_serial(),
    {
        let key = chars_of(res.lease.request_id.as_str());
        let ghost before = self.view();
        let ghost entry = reservation_view(res).1;
        proof {
            lemma_key_put(before, key@, entry);
            lemma_key_find(before, key@);
            lemma_key_lower_bound(before, key@);
        }
        match self.find(&key) {
            Some(i) => {
                self.entries.set(i, res);
                assert(self.view() =~= before.update(i as int, (key@, entry)));
            },
            None => {
                let at = self.locate(&key);
                self.entries.insert(at, res);
                assert(self.view() =~= before.insert(at as int, (key@, entry)));
            },
        }
        proof {
            let nv = self.view();
            assert forall|k: int| 0 <= k < nv.len() implies (#[trigger] nv[k]).0 == nv[k].1.lease.request_id by {
                match key_find(before, key@) {
                    Some(j) => {
                        if k != j {
                            assert(nv[k] == before[k]);
                        }
                    },
                    None => {
                        let at = key_lower_bound(before, key@);
                        if k < at {
                            assert(nv[k] == before[k]);
                        } else if k > at {
                            assert(nv[k] == before[k - 1]);
                        }
                    },
                }
            }
        }
    }
}

fn make_lease(request_id: Option<&str>, serial: u64, node_id: &str, warm: bool, model: &str, model_bytes: u64) -> (r: AdmissionLease)
    ensures
        r@ == new_lease(match request_id { Some(x) => Some(x@), None => None }, serial, node_id@, warm, model@, model_bytes),
{
    let digits = decimal_chars(serial);
    let rid = match request_id {
        Some(x) => String::from_str(x),
        None => {
            let mut v = chars_of("legacy-");
            push_chars(&mut v, &digits);
            string_of(&v)
        },
    };
    let mut idv = chars_of("adm-");
    push_chars(&mut idv, &digits);
    AdmissionLease {
        id: string_of(&idv),
        request_id: rid,
        node_id: String::from_str(node_id),
        model: String::from_str(model),
        reserved_vram_bytes: if warm { 0 } else { model_bytes },
        expires_in_ms: ADMISSION_TTL_MS,
        state: AdmissionState::Reserved,
    }
}

impl<D> AdmissionBook<D> {
    /// Records what the node made of an admission: committed leases keep
    /// their headroom (until they expire), failed ones release it at once;
    /// either way the admission stays to answer replays.
    pub fn finish(&mut self, admission_id: &str, success: bool)
        requires
            old(self).wf(),
        ensures
            final(self).wf(),
            final(self).view() == finish_spec(old(self).view(), admission_id@, success),
            final(self).next_serial() == old(self).next_serial(),
    {
        let ghost w = self.view();
        let key = chars_of(admission_id);
        let mut i: usize = 0;
        proof {
            lemma_first_with_id(w, admission_id@);
        }
        while i < self.entries.len() && !self.lease_id_is(i, &key)
            invariant
                i <= self.entries@.len(),
                w == self.view(),
                w.len() == self.entries@.len(),
                key@ == admission_id@,
                forall|k: int| 0 <= k < i ==> (#[trigger] w[k]).1.lease.id != admission_id@,
            decreases self.entries.len() - i,
        {
            i += 1;
        }
        if i < self.entries.len() {
            assert(first_with_id(w, admission_id@) == Some(i as int));
            let mut e = self.entries.remove(i);
            e.lease.state = if success { AdmissionState::Committed } else { AdmissionState::Failed };
            self.entries.insert(i, e);
            assert(self.view() =~= finish_spec(w, admission_id@, success));
            proof {
                lemma_key_update(w, i as int, self.view()[i as int].1);
            }
        } else {
            assert(first_with_id(w, admission_id@) is None);
        }
    }

    fn lease_id_is(&self, i: usize, key: &[char]) -> (r: bool)
        requires
            i < self.view().len(),
        ensures
            r == (self.view()[i as int].1.lease.id == key@),
    {
        let id = chars_of(self.entries[i].lease.id.as_str());
        chars_eq(&id, key)
    }
}

proof fn lemma_reserved_zero(v: Seq<Admission>, node: Seq<char>)
    requires
        !holds_on(v, node),
    ensures
        reserved_on(v, node) == 0,
    decreases v.len(),
{
    if v.len() > 0 {
        let d = v.drop_last();
        assert(!holds_on(d, node)) by {
            if holds_on(d, node) {
                let k = choose|k: int| 0 <= k < d.len() && (#[trigger] d[k]).1.lease.node_id == node && holds_headroom(d[k].1.lease.state);
                assert(v[k] == d[k]);
            }
        }
        lemma_reserved_zero(d, node);
        assert(v.last() == v[v.len() - 1]);
    }
}

/// Why an admission was refused: the router's reason, a malformed request,
/// a request id reused with another body, or a full book.
pub enum AdmissionError<E> {
    Route(E),
    Invalid(String),
    Conflict(String),
    Capacity(String),
}

impl<E> AdmissionError<E> {
    /// The HTTP status the refusal is answered with.
    pub fn status(&self) -> (r: u16)
        ensures
            r == match self {
                AdmissionError::Invalid(_) => 400u16,
                AdmissionError::Conflict(_) | AdmissionError::Route(_) => 409u16,
                AdmissionError::Capacity(_) => 429u16,
            },
    {
        match self {
            AdmissionError::Invalid(_) => 400,
            AdmissionError::Conflict(_) | AdmissionError::Route(_) => 409,
            AdmissionError::Capacity(_) => 429,
        }
    }
}

proof fn lemma_live_keeps(v: Seq<Admission>, i: int, now: u64)
    requires
        0 <= i < v.len(),
        v[i].1.expires > now,
    ensures
        exists|j: int| 0 <= j < live(v, now).len() && #[trigger] live(v, now)[j] == v[i],
    decreases v.len(),
{
    let d = v.drop_last();
    if i < v.len() - 1 {
        assert(d[i] == v[i]);
        lemma_live_keeps(d, i, now);
        let j = choose|j: int| 0 <= j < live(d, now).len() && #[trigger] live(d, now)[j] == d[i];
        if v.last().1.expires > now {
            assert(live(v, now)[j] == live(d, now)[j]);
        } else {
            assert(live(v, now) == live(d, now));
        }
        assert(live(v, now)[j] == v[i]);
    } else {
        let l = live(v, now);
        assert(l[l.len() - 1] == v[i]);
    }
}

/// Law: a retried execute replays its admission. Once a request id is filed
/// with a body, beginning the same request again before the lease expires
/// answers with that very lease; beginning it with a different body is
/// refused as a conflict.
pub proof fn law_retry_replays_the_admission(
    v: Seq<Admission>,
    request_id: Seq<char>,
    fingerprint: Seq<char>,
    other: Seq<char>,
    serial: u64,
    node_id: Seq<char>,
    warm: bool,
    model: Seq<char>,
    model_bytes: u64,
    now: u64,
    later: u64,
)
    requires
        keys_sorted(v),
        later < sat_add(now, ADMISSION_TTL_MS),
        other != fingerprint,
    ensures
        ({
            let lease = new_lease(Some(request_id), serial, node_id, warm, model, model_bytes);
            let filed = key_put(v, request_id, BookEntry { fingerprint, lease, expires: sat_add(now, ADMISSION_TTL_MS) });
            &&& begin_spec(filed, Some(request_id), fingerprint, later) == BeginView::Replay(lease)
            &&& begin_spec(filed, Some(request_id), other, later) == BeginView::Conflict(conflict_message(request_id))
        }),
{
    let lease = new_lease(Some(request_id), serial, node_id, warm, model, model_bytes);
    let entry = BookEntry { fingerprint, lease, expires: sat_add(now, ADMISSION_TTL_MS) };
    let filed = key_put(v, request_id, entry);
    lemma_key_put(v, request_id, entry);
    let i = key_find(filed, request_id).unwrap();
    lemma_key_find(filed, request_id);
    lemma_live_keeps(filed, i, later);
    lemma_live(filed, later);
    let l = live(filed, later);
    let j = choose|j: int| 0 <= j < l.len() && #[trigger] l[j] == filed[i];
    lemma_key_unique(l, j);
}

pub open spec fn contribution(e: Admission, node: Seq<char>) -> nat {
    if e.1.lease.node_id == node && holds_headroom(e.1.lease.state) {
        e.1.lease.reserved_vram_bytes as nat
    } else {
        0
    }
}

proof fn lemma_reserved_update(v: Seq<Admission>, i: int, x: Admission, node: Seq<char>)
    requires
        0 <= i < v.len(),
    ensures
        reserved_on(v.update(i, x), node) + contribution(v[i], node) == reserved_on(v, node) + contribution(x, node),
    decreases v.len(),
{
    let u = v.update(i, x);
    if i < v.len() - 1 {
        lemma_reserved_update(v.drop_last(), i, x, node);
        assert(u.drop_last() =~= v.drop_last().update(i, x));
        assert(u.last() == v.last());
    } else {
        assert(u.drop_last() =~= v.drop_last());
        assert(u.last() == x);
    }
}

/// Law: a failed admission releases its node's headroom at once, and stays
/// filed under its request id with its body, so a retry still replays it.
pub proof fn law_failed_admission_releases_headroom(v: Seq<Admission>, admission_id: Seq<char>, node: Seq<char>)
    requires
        first_with_id(v, admission_id) is Some,
    ensures
        ({
            let i = first_with_id(v, admission_id).unwrap();
            let after = finish_spec(v, admission_id, false);
            &&& reserved_on(after, node) + contribution(v[i], node) == reserved_on(v, node)
            &&& after[i].0 == v[i].0
            &&& after[i].1.fingerprint == v[i].1.fingerprint
            &&& after[i].1.lease.state == AdmissionState::Failed
            &&& after.len() == v.len()
        }),
{
    lemma_first_with_id(v, admission_id);
    let i = first_with_id(v, admission_id).unwrap();
    let after = finish_spec(v, admission_id, false);
    lemma_reserved_update(v, i, after[i], node);
    assert(after == v.update(i, after[i]));
}

/// How the hub answers a replayed dispatch, by the state of its admission:
/// a committed one is reported executed (200), one still in progress is
/// accepted but not executed (202), a failed one is refused (409) so the
/// caller retries under a new request id.
pub fn replay_answer(state: AdmissionState) -> (r: Result<(u16, bool, &'static str), (u16, &'static str)>)
    ensures
        match state {
            AdmissionState::Committed => r matches Ok((status, executed, note))
                && status == 200 && executed && note@ == "idempotent replay of committed dispatch"@,
            AdmissionState::Reserved => r matches Ok((status, executed, note))
                && status == 202 && !executed && note@ == "matching dispatch is already in progress"@,
            AdmissionState::Failed => r matches Err((status, message))
                && status == 409 && message@ == "matching request_id already failed; use a new request_id to retry"@,
        },
{
    match state {
        AdmissionState::Committed => Ok((200, true, "idempotent replay of committed dispatch")),
        AdmissionState::Reserved => Ok((202, false, "matching dispatch is already in progress")),
        AdmissionState::Failed => Err((409, "matching request_id already failed; use a new request_id to retry")),
    }
}

} // verus!
