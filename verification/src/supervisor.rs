//! The endpoint supervisor's decisions: restart policy, VRAM admission with
//! least-recently-used eviction, whether a start may proceed, lease expiry,
//! endpoint ids and metric label escaping. The processes themselves stay with
//! the caller; everything here is a pure function of the facts it is given.
use vstd::prelude::*;
use crate::text::{
    chars_eq, chars_of, dec_string, decimal_chars, is_ascii_alphanumeric, lower_char, push_chars,
    string_of,
};

verus! {

/// A crashed server is restarted at most this many times before it is parked
/// as failed.
pub const MAX_RESTARTS: u32 = 5;
/// Minimum gap between restart attempts, in milliseconds.
pub const RESTART_BACKOFF_MS: u64 = 2000;
/// A child that served at least this long (ms) before exiting was working,
/// not crash-looping: its exit resets the restart budget.
pub const STABLE_UPTIME_RESET_MS: u64 = 300000;
/// Lifetime of a session lease without renewal, in seconds.
pub const LEASE_TTL_SECS: u64 = 90;

/// The restart budget carried forward after a child exits.
pub fn restarts_after_exit(restarts: u32, uptime_ms: u64) -> (r: u32)
    ensures
        r == if uptime_ms >= STABLE_UPTIME_RESET_MS { 0 } else { restarts },
{
    if uptime_ms >= STABLE_UPTIME_RESET_MS {
        0
    } else {
        restarts
    }
}

/// What to do with an endpoint whose child process is gone.
#[derive(Debug, Clone, Copy, PartialEq, Eq, Structural)]
pub enum Restart {
    /// Running, or already parked as failed: nothing to do.
    NotApplicable,
    /// Exited recently: wait for the backoff.
    Backoff,
    /// Exited, budget remains, backoff elapsed: respawn.
    Attempt,
    /// The restart budget is exhausted: park as failed.
    Exhausted,
}

pub open spec fn restart_spec(running: bool, parked: bool, since_exit_ms: Option<u64>, restarts: u32) -> Restart {
    if running || parked {
        Restart::NotApplicable
    } else {
        match since_exit_ms {
            None => Restart::NotApplicable,
            Some(elapsed) => if elapsed < RESTART_BACKOFF_MS {
                Restart::Backoff
            } else if restarts >= MAX_RESTARTS {
                Restart::Exhausted
            } else {
                Restart::Attempt
            },
        }
    }
}

pub fn restart_decision(running: bool, parked: bool, since_exit_ms: Option<u64>, restarts: u32) -> (r: Restart)
    ensures
        r == restart_spec(running, parked, since_exit_ms, restarts),
{
    if running || parked {
        return Restart::NotApplicable;
    }
    match since_exit_ms {
        None => Restart::NotApplicable,
        Some(elapsed) => {
            if elapsed < RESTART_BACKOFF_MS {
                Restart::Backoff
            } else if restarts >= MAX_RESTARTS {
                Restart::Exhausted
            } else {
                Restart::Attempt
            }
        },
    }
}

/// A resident endpoint as admission sees it.
#[derive(Debug, Clone)]
pub struct ResidentVram {
    pub id: String,
    pub vram_bytes: u64,
    /// When it last served (any monotonic unit); older is evicted first.
    pub last_used: u64,
}

/// (id, VRAM bytes, last use).
pub type ResidentView = (Seq<char>, u64, u64);

pub open spec fn residents_view(v: Seq<ResidentVram>) -> Seq<ResidentView> {
    v.map_values(|r: ResidentVram| (r.id@, r.vram_bytes, r.last_used))
}

/// The outcome of admitting a new endpoint under the VRAM budget.
#[derive(Debug, Clone, PartialEq, Eq)]
pub enum Admission {
    /// Fits in the remaining budget.
    Fits,
    /// Fits only after stopping these endpoints, least recently used first.
    Evict(Vec<String>),
    /// Larger than the whole budget.
    Refuse,
}

pub open spec fn sat_add(a: u64, b: u64) -> u64 {
    if a + b > u64::MAX { u64::MAX } else { (a + b) as u64 }
}

pub open spec fn sat_sub(a: u64, b: u64) -> u64 {
    if a >= b { (a - b) as u64 } else { 0 }
}

/// The VRAM the residents hold, summed with saturation.
pub open spec fn used_vram(s: Seq<ResidentView>) -> u64
    decreases s.len(),
{
    if s.len() == 0 { 0 } else { sat_add(used_vram(s.drop_last()), s.last().1) }
}

/// `x` placed after every element not newer than it: a stable insertion.
pub open spec fn insert_by_age(sorted: Seq<ResidentView>, x: ResidentView) -> Seq<ResidentView>
    decreases sorted.len(),
{
    if sorted.len() == 0 {
        seq![x]
    } else if sorted.last().2 <= x.2 {
        sorted.push(x)
    } else {
        insert_by_age(sorted.drop_last(), x).push(sorted.last())
    }
}

/// The residents ordered by last use, oldest first, equal ages keeping their
/// order (a stable sort).
pub open spec fn by_age(s: Seq<ResidentView>) -> Seq<ResidentView>
    decreases s.len(),
{
    if s.len() == 0 { s } else { insert_by_age(by_age(s.drop_last()), s.last()) }
}

/// The shortest prefix of `s` (from `i` on, with `freed` already freed)
/// whose VRAM reaches `must_free`; all of it when none does.
pub open spec fn evict_prefix(s: Seq<ResidentView>, must_free: u64, freed: u64, i: int) -> int
    decreases s.len() - i,
{
    if i < 0 || i >= s.len() || freed >= must_free {
        i
    } else {
        evict_prefix(s, must_free, sat_add(freed, s[i].1), i + 1)
    }
}

/// Admission of a `need`-byte endpoint against `budget`: refused when larger
/// than the whole budget; admitted as is when it fits beside the residents;
/// otherwise the least recently used residents are evicted until it fits.
pub open spec fn admission_spec(budget: u64, need: u64, s: Seq<ResidentView>) -> Option<Seq<Seq<char>>> {
    if need > budget {
        None
    } else if sat_add(used_vram(s), need) <= budget {
        Some(Seq::empty())
    } else {
        let sorted = by_age(s);
        let must_free = sat_sub(sat_add(used_vram(s), need), budget);
        Some(sorted.take(evict_prefix(sorted, must_free, 0, 0)).map_values(|r: ResidentView| r.0))
    }
}

fn copy_resident(r: &ResidentVram) -> (c: ResidentVram)
    ensures
        c.id@ == r.id@,
        c.vram_bytes == r.vram_bytes,
        c.last_used == r.last_used,
{
    ResidentVram { id: r.id.clone(), vram_bytes: r.vram_bytes, last_used: r.last_used }
}

proof fn lemma_insert_step(r: Seq<ResidentView>, x: ResidentView, k: int)
    requires
        0 < k <= r.len(),
        r[k - 1].2 > x.2,
    ensures
        insert_by_age(r.take(k), x) + r.skip(k) == insert_by_age(r.take(k - 1), x) + r.skip(k - 1),
{
    assert(r.take(k).drop_last() =~= r.take(k - 1));
    assert(r.take(k).last() == r[k - 1]);
    assert(insert_by_age(r.take(k), x) == insert_by_age(r.take(k - 1), x).push(r[k - 1]));
    assert(insert_by_age(r.take(k - 1), x).push(r[k - 1]) + r.skip(k) =~= insert_by_age(r.take(k - 1), x) + r.skip(k - 1));
}

/// The residents in stable least-recently-used order (see [`by_age`]).
fn sort_by_age(residents: &Vec<ResidentVram>) -> (r: Vec<ResidentVram>)
    ensures
        residents_view(r@) == by_age(residents_view(residents@)),
{
    let ghost input = residents_view(residents@);
    let mut out: Vec<ResidentVram> = Vec::new();
    let mut i: usize = 0;
    assert(residents_view(out@) =~= by_age(input.take(0)));
    while i < residents.len()
        invariant
            i <= residents@.len(),
            input == residents_view(residents@),
            residents_view(out@) == by_age(input.take(i as int)),
        decreases residents.len() - i,
    {
        let x = copy_resident(&residents[i]);
        let ghost xv = (x.id@, x.vram_bytes, x.last_used);
        assert(xv == input[i as int]);
        let ghost cur = residents_view(out@);
        let mut k = out.len();
        assert(cur.take(k as int) =~= cur && cur.skip(k as int) =~= Seq::<ResidentView>::empty());
        while k > 0 && out[k - 1].last_used > x.last_used
            invariant
                k <= out@.len(),
                cur == residents_view(out@),
                insert_by_age(cur, xv) == insert_by_age(cur.take(k as int), xv) + cur.skip(k as int),
                xv.2 == x.last_used,
            decreases k,
        {
            proof {
                lemma_insert_step(cur, xv, k as int);
            }
            k -= 1;
        }
        proof {
            if k > 0 {
                assert(cur.take(k as int).drop_last() =~= cur.take(k - 1));
                assert(insert_by_age(cur.take(k as int), xv) == cur.take(k as int).push(xv));
            } else {
                assert(insert_by_age(cur.take(0), xv) == seq![xv]);
            }
        }
        out.insert(k, x);
        assert(residents_view(out@) =~= cur.insert(k as int, xv));
        assert(cur.insert(k as int, xv) =~= cur.take(k as int).push(xv) + cur.skip(k as int));
        assert(input.take(i + 1).drop_last() =~= input.take(i as int));
        i += 1;
    }
    assert(input.take(residents@.len() as int) =~= input);
    out
}

fn used_vram_exec(residents: &Vec<ResidentVram>) -> (r: u64)
    ensures
        r == used_vram(residents_view(residents@)),
{
    let ghost v = residents_view(residents@);
    let mut used: u64 = 0;
    let mut i: usize = 0;
    while i < residents.len()
        invariant
            i <= residents@.len(),
            v == residents_view(residents@),
            used == used_vram(v.take(i as int)),
        decreases residents.len() - i,
    {
        assert(v.take(i + 1).drop_last() =~= v.take(i as int));
        used = used.saturating_add(residents[i].vram_bytes);
        i += 1;
    }
    assert(v.take(residents@.len() as int) =~= v);
    used
}

/// Admission of a `need`-byte endpoint under a known, non-zero `budget`
/// (see [`admission_spec`]).
pub fn decide_admission(budget: u64, need: u64, residents: &Vec<ResidentVram>) -> (r: Admission)
    ensures
        match r {
            Admission::Refuse => admission_spec(budget, need, residents_view(residents@)) is None,
            Admission::Fits => admission_spec(budget, need, residents_view(residents@)) == Some(Seq::<Seq<char>>::empty()),
            Admission::Evict(ids) => admission_spec(budget, need, residents_view(residents@)) == Some(ids@.map_values(|s: String| s@))
                && ids@.len() > 0,
        },
{
    if need > budget {
        return Admission::Refuse;
    }
    let used = used_vram_exec(residents);
    if used.saturating_add(need) <= budget {
        return Admission::Fits;
    }
    let sorted = sort_by_age(residents);
    let ghost sv = residents_view(sorted@);
    let must_free = used.saturating_add(need).saturating_sub(budget);
    let mut freed: u64 = 0;
    let mut evict: Vec<String> = Vec::new();
    let mut i: usize = 0;
    while i < sorted.len() && freed < must_free
        invariant
            i <= sorted@.len(),
            sv == residents_view(sorted@),
            evict_prefix(sv, must_free, 0, 0) == evict_prefix(sv, must_free, freed, i as int),
            evict@.map_values(|s: String| s@) == sv.take(i as int).map_values(|r: ResidentView| r.0),
            i == 0 ==> freed == 0,
            must_free > 0,
        decreases sorted.len() - i,
    {
        freed = freed.saturating_add(sorted[i].vram_bytes);
        let ghost before = evict@;
        evict.push(sorted[i].id.clone());
        assert(evict@.map_values(|s: String| s@) =~= before.map_values(|s: String| s@).push(sv[i as int].0));
        assert(sv.take(i + 1).map_values(|r: ResidentView| r.0) =~= sv.take(i as int).map_values(|r: ResidentView| r.0).push(sv[i as int].0));
        i += 1;
    }
    proof {
        assert(must_free > 0);
        lemma_by_age_len(residents_view(residents@));
        if residents@.len() == 0 {
            assert(residents_view(residents@).len() == 0);
            assert(used_vram(residents_view(residents@)) == 0);
        }
        assert(sorted@.len() > 0);
        if i == 0 {
            assert(freed == 0);
        }
    }
    assert(i > 0);
    Admission::Evict(evict)
}

proof fn lemma_insert_len(s: Seq<ResidentView>, x: ResidentView)
    ensures
        insert_by_age(s, x).len() == s.len() + 1,
    decreases s.len(),
{
    if s.len() > 0 && s.last().2 > x.2 {
        lemma_insert_len(s.drop_last(), x);
    }
}

proof fn lemma_by_age_len(s: Seq<ResidentView>)
    ensures
        by_age(s).len() == s.len(),
    decreases s.len(),
{
    if s.len() > 0 {
        lemma_by_age_len(s.drop_last());
        lemma_insert_len(by_age(s.drop_last()), s.last());
    }
}

/// VRAM of the first `k` residents of `s`, summed with saturation.
pub open spec fn prefix_vram(s: Seq<ResidentView>, k: int) -> u64
    decreases k,
{
    if k <= 0 || k > s.len() { 0 } else { sat_add(prefix_vram(s, k - 1), s[k - 1].1) }
}

pub open spec fn oldest_first(s: Seq<ResidentView>) -> bool {
    forall|i: int, j: int| 0 <= i < j < s.len() ==> (#[trigger] s[i]).2 <= (#[trigger] s[j]).2
}

proof fn lemma_insert_sorted(s: Seq<ResidentView>, x: ResidentView)
    requires
        oldest_first(s),
    ensures
        oldest_first(insert_by_age(s, x)),
        forall|i: int| 0 <= i < insert_by_age(s, x).len() ==> (#[trigger] insert_by_age(s, x)[i]) == x || s.contains(insert_by_age(s, x)[i]),
    decreases s.len(),
{
    lemma_insert_len(s, x);
    if s.len() > 0 && s.last().2 > x.2 {
        let d = s.drop_last();
        assert(oldest_first(d));
        lemma_insert_sorted(d, x);
        lemma_insert_len(d, x);
        let r = insert_by_age(s, x);
        let t = insert_by_age(d, x);
        assert forall|i: int| 0 <= i < r.len() implies (#[trigger] r[i]) == x || s.contains(r[i]) by {
            if i < t.len() {
                assert(r[i] == t[i]);
                if t[i] != x {
                    let j = choose|j: int| 0 <= j < d.len() && d[j] == t[i];
                    assert(s[j] == t[i]);
                }
            } else {
                assert(r[i] == s[s.len() - 1]);
            }
        }
        assert forall|i: int, j: int| 0 <= i < j < r.len() implies (#[trigger] r[i]).2 <= (#[trigger] r[j]).2 by {
            if j < t.len() {
                assert(r[i] == t[i] && r[j] == t[j]);
            } else {
                assert(r[j] == s[s.len() - 1]);
                assert(r[i] == t[i]);
                if t[i] != x {
                    let k = choose|k: int| 0 <= k < d.len() && d[k] == t[i];
                    assert(s[k] == t[i]);
                }
            }
        }
    } else if s.len() > 0 {
        let r = insert_by_age(s, x);
        assert forall|i: int| 0 <= i < r.len() implies (#[trigger] r[i]) == x || s.contains(r[i]) by {
            if i < s.len() {
                assert(r[i] == s[i]);
            }
        }
    }
}

/// Law of admission: eviction takes the least recently used residents first.
pub proof fn law_eviction_order_is_oldest_first(s: Seq<ResidentView>)
    ensures
        oldest_first(by_age(s)),
    decreases s.len(),
{
    if s.len() > 0 {
        law_eviction_order_is_oldest_first(s.drop_last());
        lemma_insert_sorted(by_age(s.drop_last()), s.last());
    }
}

proof fn lemma_evict_prefix(s: Seq<ResidentView>, must_free: u64, freed: u64, i: int)
    requires
        0 <= i <= s.len(),
        freed == prefix_vram(s, i),
        i > 0 ==> prefix_vram(s, i - 1) < must_free,
    ensures
        i <= evict_prefix(s, must_free, freed, i) <= s.len(),
        evict_prefix(s, must_free, freed, i) < s.len() ==> prefix_vram(s, evict_prefix(s, must_free, freed, i)) >= must_free,
        evict_prefix(s, must_free, freed, i) > 0 ==> prefix_vram(s, evict_prefix(s, must_free, freed, i) - 1) < must_free,
    decreases s.len() - i,
{
    if i < s.len() && freed < must_free {
        lemma_evict_prefix(s, must_free, sat_add(freed, s[i].1), i + 1);
    }
}

/// Law of admission: the evicted residents are the shortest run of the
/// oldest ones whose VRAM covers what must be freed; only when no such run
/// exists is every resident evicted. A request larger than the budget is
/// refused, and one that fits beside the residents evicts nothing.
pub proof fn law_eviction_is_minimal(budget: u64, need: u64, s: Seq<ResidentView>)
    ensures
        admission_spec(budget, need, s) is None <==> need > budget,
        need <= budget && sat_add(used_vram(s), need) <= budget ==> admission_spec(budget, need, s) == Some(Seq::<Seq<char>>::empty()),
        need <= budget && sat_add(used_vram(s), need) > budget ==> ({
            let sorted = by_age(s);
            let must_free = sat_sub(sat_add(used_vram(s), need), budget);
            let k = evict_prefix(sorted, must_free, 0, 0);
            &&& 0 < k <= sorted.len()
            &&& admission_spec(budget, need, s) == Some(sorted.take(k).map_values(|r: ResidentView| r.0))
            &&& (k < sorted.len() ==> prefix_vram(sorted, k) >= must_free)
            &&& prefix_vram(sorted, k - 1) < must_free
        }),
{
    if need <= budget && sat_add(used_vram(s), need) > budget {
        let sorted = by_age(s);
        let must_free = sat_sub(sat_add(used_vram(s), need), budget);
        lemma_by_age_len(s);
        lemma_evict_prefix(sorted, must_free, 0, 0);
        if s.len() == 0 {
            assert(used_vram(s) == 0);
        }
    }
}

/// Why a start was refused before any process was spawned.
#[derive(Debug, Clone, PartialEq, Eq)]
pub enum StartError {
    ShuttingDown,
    Termination(String),
    Persistence(String),
    /// An endpoint with this id, or another on the same port, is running.
    PortInUse(String),
    /// The model is larger than the whole GPU.
    WontFit(String),
    /// The model fits only by evicting endpoints that sessions have claimed.
    LeasedCapacity(String),
    /// The model fits only if these unleased endpoints are stopped.
    EvictionRequired(Vec<String>),
}

/// Why an explicit session lease could not be created.
#[derive(Debug, Clone, PartialEq, Eq)]
pub enum LeaseError {
    Persistence(String),
    /// No currently running endpoint serves the requested model.
    Unavailable(String),
}

/// What the start decision needs to know of one tracked endpoint.
#[derive(Debug, Clone)]
pub struct EndpointFacts {
    pub id: String,
    pub port: u16,
    /// Its process is alive (after reaping).
    pub running: bool,
    pub vram_bytes: u64,
    pub last_used: u64,
    /// A session lease claims it.
    pub leased: bool,
}

/// (id, port, running, VRAM, last use, leased).
pub type FactsView = (Seq<char>, u16, bool, u64, u64, bool);

pub open spec fn facts_view(v: Seq<EndpointFacts>) -> Seq<FactsView> {
    v.map_values(|e: EndpointFacts| (e.id@, e.port, e.running, e.vram_bytes, e.last_used, e.leased))
}

/// The decision on a start request.
#[derive(Debug, Clone, PartialEq, Eq)]
pub enum StartPlan {
    Refused(StartError),
    /// Larger than the budget, with nothing leased in the way.
    WontFit { need: u64, budget: u64 },
    /// Refused while `protected` bytes are held by leased endpoints.
    LeasedCapacity { need: u64, protected: u64 },
    /// Start, after stopping these endpoints (none when it simply fits).
    Proceed(Vec<String>),
}

/// The first running endpoint other than `id` on `port`.
pub open spec fn port_holder(v: Seq<FactsView>, id: Seq<char>, port: u16) -> Option<Seq<char>>
    decreases v.len(),
{
    if v.len() == 0 {
        None
    } else if v[0].0 != id && v[0].1 == port && v[0].2 {
        Some(v[0].0)
    } else {
        port_holder(v.drop_first(), id, port)
    }
}

/// The running, unleased endpoints other than `id` that hold VRAM: what
/// eviction may touch.
pub open spec fn evictable(v: Seq<FactsView>, id: Seq<char>) -> Seq<ResidentView>
    decreases v.len(),
{
    if v.len() == 0 {
        Seq::empty()
    } else {
        let e = v.last();
        let rest = evictable(v.drop_last(), id);
        if e.0 != id && e.2 && e.3 > 0 && !e.5 {
            rest.push((e.0, e.3, e.4))
        } else {
            rest
        }
    }
}

/// VRAM held by running, leased endpoints (saturating).
pub open spec fn protected_vram(v: Seq<FactsView>) -> u64
    decreases v.len(),
{
    if v.len() == 0 {
        0
    } else {
        let e = v.last();
        if e.5 && e.2 {
            sat_add(protected_vram(v.drop_last()), e.3)
        } else {
            protected_vram(v.drop_last())
        }
    }
}

/// The start decision: refused while shutting down or while the id or port
/// is taken by a running endpoint; with a known budget and need, admitted by
/// [`admission_spec`] over the evictable endpoints (eviction only when
/// allowed), and a refusal blames the leases when they hold VRAM.
pub open spec fn start_spec(
    shutting_down: bool,
    id: Seq<char>,
    port: u16,
    v: Seq<FactsView>,
    need: u64,
    budget: u64,
    allow_evict: bool,
) -> (int, Option<Seq<Seq<char>>>) {
    // (kind, ids): 0 shutting down, 1 port in use (ids = [holder]), 2 eviction
    // required (ids), 3 leased capacity, 4 won't fit, 5 proceed (ids).
    if shutting_down {
        (0, None)
    } else if exists|i: int| 0 <= i < v.len() && (#[trigger] v[i]).0 == id && v[i].2 {
        (1, Some(seq![id]))
    } else if port_holder(v, id, port) is Some {
        (1, Some(seq![port_holder(v, id, port).unwrap()]))
    } else if budget > 0 && need > 0 {
        match admission_spec(budget, need, evictable(v, id)) {
            None => if protected_vram(v) > 0 { (3, None) } else { (4, None) },
            Some(ids) => if ids.len() > 0 && !allow_evict { (2, Some(ids)) } else { (5, Some(ids)) },
        }
    } else {
        (5, Some(Seq::empty()))
    }
}

pub open spec fn plan_view(p: StartPlan) -> (int, Option<Seq<Seq<char>>>) {
    match p {
        StartPlan::Refused(StartError::ShuttingDown) => (0, None),
        StartPlan::Refused(StartError::PortInUse(h)) => (1, Some(seq![h@])),
        StartPlan::Refused(StartError::EvictionRequired(ids)) => (2, Some(ids@.map_values(|s: String| s@))),
        StartPlan::LeasedCapacity { .. } => (3, None),
        StartPlan::WontFit { .. } => (4, None),
        StartPlan::Proceed(ids) => (5, Some(ids@.map_values(|s: String| s@))),
        _ => (-1, None),
    }
}

/// Decides a start request (see [`start_spec`]). The refusals that need a
/// message in GiB carry the byte counts instead.
pub fn plan_start(
    shutting_down: bool,
    id: &str,
    port: u16,
    endpoints: &Vec<EndpointFacts>,
    need: u64,
    budget: u64,
    allow_evict: bool,
) -> (r: StartPlan)
    ensures
        plan_view(r) == start_spec(shutting_down, id@, port, facts_view(endpoints@), need, budget, allow_evict),
        r matches StartPlan::WontFit { need: n, budget: b } ==> n == need && b == budget,
        r matches StartPlan::LeasedCapacity { need: n, protected: p } ==> n == need && p == protected_vram(facts_view(endpoints@)),
{
    let ghost v = facts_view(endpoints@);
    if shutting_down {
        return StartPlan::Refused(StartError::ShuttingDown);
    }
    let key = chars_of(id);
    let mut i: usize = 0;
    while i < endpoints.len()
        invariant
            i <= endpoints@.len(),
            v == facts_view(endpoints@),
            key@ == id@,
            !shutting_down,
            forall|j: int| 0 <= j < i ==> !((#[trigger] v[j]).0 == id@ && v[j].2),
        decreases endpoints.len() - i,
    {
        let e = chars_of(endpoints[i].id.as_str());
        if endpoints[i].running && chars_eq(&e, &key) {
            assert(v[i as int].0 == id@ && v[i as int].2);
            return StartPlan::Refused(StartError::PortInUse(String::from_str(id)));
        }
        i += 1;
    }
    let mut j: usize = 0;
    assert(v.skip(0) =~= v);
    while j < endpoints.len()
        invariant
            j <= endpoints@.len(),
            v == facts_view(endpoints@),
            key@ == id@,
            !shutting_down,
            !(exists|m: int| 0 <= m < v.len() && (#[trigger] v[m]).0 == id@ && v[m].2),
            port_holder(v, id@, port) == port_holder(v.skip(j as int), id@, port),
        decreases endpoints.len() - j,
    {
        assert(v.skip(j as int).drop_first() =~= v.skip(j + 1));
        assert(v.skip(j as int)[0] == v[j as int]);
        let e = chars_of(endpoints[j].id.as_str());
        if endpoints[j].running && endpoints[j].port == port && !chars_eq(&e, &key) {
            return StartPlan::Refused(StartError::PortInUse(endpoints[j].id.clone()));
        }
        j += 1;
    }
    if budget > 0 && need > 0 {
        let mut residents: Vec<ResidentVram> = Vec::new();
        let mut protected: u64 = 0;
        let mut k: usize = 0;
        while k < endpoints.len()
            invariant
                k <= endpoints@.len(),
                v == facts_view(endpoints@),
                key@ == id@,
                residents_view(residents@) == evictable(v.take(k as int), id@),
                protected == protected_vram(v.take(k as int)),
            decreases endpoints.len() - k,
        {
            assert(v.take(k + 1).drop_last() =~= v.take(k as int));
            let e = chars_of(endpoints[k].id.as_str());
            if !chars_eq(&e, &key) && endpoints[k].running && endpoints[k].vram_bytes > 0 && !endpoints[k].leased {
                let ghost before = residents@;
                residents.push(ResidentVram {
                    id: endpoints[k].id.clone(),
                    vram_bytes: endpoints[k].vram_bytes,
                    last_used: endpoints[k].last_used,
                });
                assert(residents_view(residents@) =~= residents_view(before).push((v[k as int].0, v[k as int].3, v[k as int].4)));
            }
            if endpoints[k].leased && endpoints[k].running {
                protected = protected.saturating_add(endpoints[k].vram_bytes);
            }
            k += 1;
        }
        assert(v.take(endpoints@.len() as int) =~= v);
        match decide_admission(budget, need, &residents) {
            Admission::Fits => {
                let empty: Vec<String> = Vec::new();
                assert(empty@.map_values(|s: String| s@) =~= Seq::<Seq<char>>::empty());
                StartPlan::Proceed(empty)
            },
            Admission::Evict(ids) => {
                if allow_evict {
                    StartPlan::Proceed(ids)
                } else {
                    StartPlan::Refused(StartError::EvictionRequired(ids))
                }
            },
            Admission::Refuse => {
                if protected > 0 {
                    StartPlan::LeasedCapacity { need, protected }
                } else {
                    StartPlan::WontFit { need, budget }
                }
            },
        }
    } else {
        let empty: Vec<String> = Vec::new();
        assert(empty@.map_values(|s: String| s@) =~= Seq::<Seq<char>>::empty());
        StartPlan::Proceed(empty)
    }
}

/// The escape of one character in a Prometheus label value.
pub open spec fn esc_char(c: char) -> Seq<char> {
    if c == '\\' {
        seq!['\\', '\\']
    } else if c == '"' {
        seq!['\\', '"']
    } else if c == '\n' {
        seq!['\\', 'n']
    } else {
        seq![c]
    }
}

/// A Prometheus label value: backslash, double quote and newline escaped.
pub open spec fn esc_spec(s: Seq<char>) -> Seq<char>
    decreases s.len(),
{
    if s.len() == 0 {
        Seq::empty()
    } else {
        esc_spec(s.drop_last()) + esc_char(s.last())
    }
}

/// Escapes a Prometheus label value.
pub fn esc(s: &str) -> (r: String)
    ensures
        r@ == esc_spec(s@),
{
    let c = chars_of(s);
    let mut out: Vec<char> = Vec::new();
    let mut i: usize = 0;
    while i < c.len()
        invariant
            i <= c@.len(),
            out@ == esc_spec(c@.take(i as int)),
        decreases c.len() - i,
    {
        let ch = c[i];
        if ch == '\\' {
            out.push('\\');
            out.push('\\');
        } else if ch == '"' {
            out.push('\\');
            out.push('"');
        } else if ch == '\n' {
            out.push('\\');
            out.push('n');
        } else {
            out.push(ch);
        }
        assert(c@.take(i + 1).drop_last() =~= c@.take(i as int));
        assert(out@ =~= esc_spec(c@.take(i + 1)));
        i += 1;
    }
    assert(c@.take(c@.len() as int) =~= c@);
    string_of(&out)
}

/// Law of label escaping: an escaped value never holds a raw newline, and
/// every double quote in it is escaped, so a value cannot end its label or
/// start a new sample line.
pub proof fn law_escaped_labels_stay_on_one_line(s: Seq<char>)
    ensures
        !esc_spec(s).contains('\n'),
        forall|i: int| 0 <= i < esc_spec(s).len() && #[trigger] esc_spec(s)[i] == '"' ==> i > 0 && esc_spec(s)[i - 1] == '\\',
    decreases s.len(),
{
    if s.len() > 0 {
        law_escaped_labels_stay_on_one_line(s.drop_last());
        let p = esc_spec(s.drop_last());
        let e = esc_char(s.last());
        let r = esc_spec(s);
        assert(r == p + e);
        assert forall|i: int| 0 <= i < r.len() implies r[i] != '\n' by {
            if i < p.len() {
                assert(r[i] == p[i]);
            }
        }
        assert forall|i: int| 0 <= i < r.len() && #[trigger] r[i] == '"' implies i > 0 && r[i - 1] == '\\' by {
            if i < p.len() {
                assert(r[i] == p[i]);
                assert(r[i - 1] == p[i - 1]);
            }
        }
    }
}

/// The slug character for one model-name character.
pub open spec fn slug_char(c: char) -> char {
    if is_ascii_alphanumeric(c) { lower_char(c) } else { '-' }
}

/// The dash-separated non-empty runs of `s[i..]`, appended to `out`; a dash
/// is owed before the next run when `dash` is set.
pub open spec fn collapse_from(s: Seq<char>, i: int, out: Seq<char>, dash: bool) -> Seq<char>
    decreases s.len() - i,
{
    if i < 0 || i >= s.len() {
        out
    } else if s[i] == '-' {
        collapse_from(s, i + 1, out, out.len() > 0)
    } else if dash {
        collapse_from(s, i + 1, out.push('-').push(s[i]), false)
    } else {
        collapse_from(s, i + 1, out.push(s[i]), false)
    }
}

/// The readable slug of a model name: ASCII letters and digits lower-cased,
/// every other character a separator, runs of separators collapsed to one
/// dash and none at either end.
pub open spec fn slug(model: Seq<char>) -> Seq<char> {
    collapse_from(model.map_values(|c: char| slug_char(c)), 0, Seq::empty(), false)
}

/// The stable endpoint id: `<slug>-<port>`, with `model` for an empty slug.
pub open spec fn endpoint_id_spec(model: Seq<char>, port: u16) -> Seq<char> {
    let sl = slug(model);
    (if sl.len() == 0 { "model"@ } else { sl }) + "-"@ + dec_string(port as nat)
}

/// Derives the stable endpoint id from a model name and port.
pub fn endpoint_id(model: &str, port: u16) -> (r: String)
    ensures
        r@ == endpoint_id_spec(model@, port),
{
    let c = chars_of(model);
    let mut mapped: Vec<char> = Vec::new();
    let mut i: usize = 0;
    while i < c.len()
        invariant
            i <= c@.len(),
            mapped@ == c@.take(i as int).map_values(|ch: char| slug_char(ch)),
        decreases c.len() - i,
    {
        let ch = c[i];
        let is_alnum = ('0' <= ch && ch <= '9') || ('a' <= ch && ch <= 'z') || ('A' <= ch && ch <= 'Z');
        mapped.push(if is_alnum { crate::text::char_lower(ch) } else { '-' });
        assert(mapped@ =~= c@.take(i + 1).map_values(|ch: char| slug_char(ch)));
        i += 1;
    }
    assert(c@.take(c@.len() as int) =~= c@);
    let ghost m = mapped@;
    let mut out: Vec<char> = Vec::new();
    let mut dash = false;
    let mut j: usize = 0;
    while j < mapped.len()
        invariant
            j <= mapped@.len(),
            m == mapped@,
            collapse_from(m, 0, Seq::empty(), false) == collapse_from(m, j as int, out@, dash),
        decreases mapped.len() - j,
    {
        let ch = mapped[j];
        if ch == '-' {
            dash = out.len() > 0;
        } else {
            if dash {
                out.push('-');
            }
            out.push(ch);
            dash = false;
        }
        j += 1;
    }
    let mut id: Vec<char> = if out.len() == 0 { chars_of("model") } else { out };
    crate::text::push_str_chars(&mut id, "-");
    let digits = decimal_chars(port as u64);
    push_chars(&mut id, &digits);
    string_of(&id)
}

/// Whether a lease has expired at wall-clock second `now`: its recorded
/// deadline passed, or (for a lease renewed in this process) the monotonic
/// time since renewal reached the lease lifetime.
pub fn lease_expired(expires_at: u64, now: u64, secs_since_renewal: Option<u64>) -> (r: bool)
    ensures
        r == (expires_at <= now || (secs_since_renewal matches Some(s) && s >= LEASE_TTL_SECS)),
{
    expires_at <= now || match secs_since_renewal {
        Some(s) => s >= LEASE_TTL_SECS,
        None => false,
    }
}

/// What a session lease reports: past its deadline; restored from disk and
/// awaiting the session's own claim; or, by its endpoint, active when that is
/// ready and unavailable when it is not (or is gone).
#[derive(Debug, Clone, Copy, PartialEq, Eq, Structural)]
pub enum LeaseState {
    Expired,
    RecoveryRequired,
    Active,
    Unavailable,
}

pub open spec fn lease_state_spec(expired: bool, recovered: bool, endpoint_ready: Option<bool>) -> LeaseState {
    if expired {
        LeaseState::Expired
    } else if recovered {
        LeaseState::RecoveryRequired
    } else if endpoint_ready == Some(true) {
        LeaseState::Active
    } else {
        LeaseState::Unavailable
    }
}

/// `endpoint_ready` is `None` when the leased endpoint is no longer tracked.
pub fn lease_state(expired: bool, recovered: bool, endpoint_ready: Option<bool>) -> (r: LeaseState)
    ensures
        r == lease_state_spec(expired, recovered, endpoint_ready),
{
    if expired {
        LeaseState::Expired
    } else if recovered {
        LeaseState::RecoveryRequired
    } else {
        match endpoint_ready {
            Some(true) => LeaseState::Active,
            _ => LeaseState::Unavailable,
        }
    }
}

impl LeaseState {
    pub fn label(&self) -> (r: &'static str)
        ensures
            r@ == match *self {
                LeaseState::Expired => "expired"@,
                LeaseState::RecoveryRequired => "recovery_required"@,
                LeaseState::Active => "active"@,
                LeaseState::Unavailable => "unavailable"@,
            },
    {
        match self {
            LeaseState::Expired => "expired",
            LeaseState::RecoveryRequired => "recovery_required",
            LeaseState::Active => "active",
            LeaseState::Unavailable => "unavailable",
        }
    }
}

/// The deadline a lease restored from disk keeps: at most one lifetime from
/// `now` (a recorded deadline of 0, from before deadlines were kept, gets the
/// full lifetime), so a restart can never extend a claim.
pub open spec fn recovered_expiry_spec(expires_at: u64, now: u64) -> u64 {
    let cap = if now + LEASE_TTL_SECS > u64::MAX { u64::MAX } else { (now + LEASE_TTL_SECS) as u64 };
    if expires_at == 0 || expires_at > cap { cap } else { expires_at }
}

pub fn recovered_expiry(expires_at: u64, now: u64) -> (r: u64)
    ensures
        r == recovered_expiry_spec(expires_at, now),
        r <= now + LEASE_TTL_SECS,
        expires_at != 0 ==> r <= expires_at,
{
    let cap = now.saturating_add(LEASE_TTL_SECS);
    if expires_at == 0 || expires_at > cap {
        cap
    } else {
        expires_at
    }
}

/// What a session heartbeat does to the session's lease.
#[derive(Debug, Clone, Copy, PartialEq, Eq, Structural)]
pub enum Renewal {
    /// Left as it is: a lease restored from disk waits for an explicit claim.
    Unchanged,
    /// Dropped: an expired lease is never brought back by a heartbeat.
    Dropped,
    /// Extended to this deadline (epoch seconds).
    ExtendedTo(u64),
}

/// The heartbeat rule for an existing lease (see [`Renewal`]); the new
/// deadline is one lifetime from `now`, saturating.
pub fn renewal(recovered: bool, expired: bool, now: u64) -> (r: Renewal)
    ensures
        recovered ==> r == Renewal::Unchanged,
        !recovered && expired ==> r == Renewal::Dropped,
        !recovered && !expired ==> r == Renewal::ExtendedTo(sat_add(now, LEASE_TTL_SECS)),
{
    if recovered {
        Renewal::Unchanged
    } else if expired {
        Renewal::Dropped
    } else {
        Renewal::ExtendedTo(now.saturating_add(LEASE_TTL_SECS))
    }
}

/// The residents not named in `protected`, in their order.
pub open spec fn unprotected(v: Seq<ResidentView>, protected: Seq<Seq<char>>) -> Seq<ResidentView>
    decreases v.len(),
{
    if v.len() == 0 {
        v
    } else if protected.contains(v.last().0) {
        unprotected(v.drop_last(), protected)
    } else {
        unprotected(v.drop_last(), protected).push(v.last())
    }
}

fn named_in(id: &str, protected: &[String]) -> (r: bool)
    ensures
        r == protected@.map_values(|s: String| s@).contains(id@),
{
    let c = chars_of(id);
    let ghost p = protected@.map_values(|s: String| s@);
    let mut i: usize = 0;
    while i < protected.len()
        invariant
            i <= protected@.len(),
            p == protected@.map_values(|s: String| s@),
            c@ == id@,
            forall|k: int| 0 <= k < i ==> p[k] != id@,
        decreases protected.len() - i,
    {
        let d = chars_of(protected[i].as_str());
        if crate::text::chars_eq(&d, &c) {
            assert(p[i as int] == id@);
            return true;
        }
        i += 1;
    }
    false
}

/// Leased residents are never candidates for eviction: drops the residents
/// whose id is in `protected`.
pub fn exclude_leased_residents(residents: &mut Vec<ResidentVram>, protected: &[String])
    ensures
        residents_view(final(residents)@) == unprotected(residents_view(old(residents)@), protected@.map_values(|s: String| s@)),
{
    let ghost w = residents_view(residents@);
    let ghost p = protected@.map_values(|s: String| s@);
    let mut kept: Vec<ResidentVram> = Vec::new();
    let mut i: usize = 0;
    while i < residents.len()
        invariant
            i <= residents@.len(),
            w == residents_view(residents@),
            p == protected@.map_values(|s: String| s@),
            residents_view(kept@) == unprotected(w.take(i as int), p),
        decreases residents.len() - i,
    {
        assert(w.take(i + 1).drop_last() =~= w.take(i as int));
        assert(w.take(i + 1).last() == w[i as int]);
        let r = &residents[i];
        if !named_in(r.id.as_str(), protected) {
            let ghost before = kept@;
            kept.push(ResidentVram { id: r.id.clone(), vram_bytes: r.vram_bytes, last_used: r.last_used });
            assert(residents_view(kept@) =~= residents_view(before).push(w[i as int]));
        }
        i += 1;
    }
    assert(w.take(w.len() as int) =~= w);
    *residents = kept;
}

} // verus!
