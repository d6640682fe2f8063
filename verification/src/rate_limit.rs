//! Bounded fixed-window request admission for the HTTP surface.
//!
//! Each identity (a client and a request class) gets `limit` admissions per
//! window; the window restarts once its reset time has passed. At most
//! [`MAX_IDENTITIES`] windows are tracked: a new identity over that ceiling is
//! admitted only if expired windows can be dropped to make room.
use vstd::prelude::*;
use crate::clock::Clock;
use crate::text::{chars_eq, chars_of};

verus! {

pub const MAX_IDENTITIES: usize = 4096;

pub const WINDOW_SECONDS: u64 = 60;
pub const PAIRING_REQUESTS_PER_WINDOW: u32 = 10;
pub const INVALID_AUTH_REQUESTS_PER_WINDOW: u32 = 30;
pub const INFERENCE_REQUESTS_PER_WINDOW: u32 = 600;
pub const CONTROL_REQUESTS_PER_WINDOW: u32 = 300;
pub const PUBLIC_REQUESTS_PER_WINDOW: u32 = 300;

/// One identity's window: when it resets (in clock milliseconds) and how many
/// requests it admitted so far.
#[derive(Debug, Clone, Copy, PartialEq, Eq, Structural)]
pub struct Window {
    pub reset_at: u64,
    pub count: u32,
}

/// (identity, reset time, admitted count).
pub type Entry = (Seq<char>, u64, u32);

pub open spec fn distinct_keys(w: Seq<Entry>) -> bool {
    forall|i: int, j: int| 0 <= i < j < w.len() ==> (#[trigger] w[i]).0 != (#[trigger] w[j]).0
}

/// The first position holding identity `k`.
pub open spec fn key_pos(w: Seq<Entry>, k: Seq<char>, i: int) -> Option<int>
    decreases w.len() - i,
{
    if i < 0 || i >= w.len() {
        None
    } else if w[i].0 == k {
        Some(i)
    } else {
        key_pos(w, k, i + 1)
    }
}

/// The windows that have not yet reset at `now`, in order.
pub open spec fn live(w: Seq<Entry>, now: u64) -> Seq<Entry>
    decreases w.len(),
{
    if w.len() == 0 {
        w
    } else if w.last().1 > now {
        live(w.drop_last(), now).push(w.last())
    } else {
        live(w.drop_last(), now)
    }
}

pub open spec fn sat_add(a: u64, b: u64) -> u64 {
    if a + b > u64::MAX {
        u64::MAX
    } else {
        (a + b) as u64
    }
}

/// One admission decision for identity `k` with `limit` requests per
/// `window` milliseconds at time `now`: whether it is admitted, and the
/// windows afterwards.
pub open spec fn allow_spec(w: Seq<Entry>, k: Seq<char>, limit: u32, window: u64, now: u64) -> (bool, Seq<Entry>) {
    if limit == 0 {
        (false, w)
    } else {
        let absent = key_pos(w, k, 0) is None;
        let w1 = if w.len() >= MAX_IDENTITIES && absent {
            live(w, now)
        } else {
            w
        };
        if w1.len() >= MAX_IDENTITIES && absent {
            (false, w1)
        } else {
            let reset = sat_add(now, window);
            match key_pos(w1, k, 0) {
                None => (true, w1.push((k, reset, 1u32))),
                Some(i) => {
                    let fresh = w1[i].1 <= now;
                    let reset_at = if fresh {
                        reset
                    } else {
                        w1[i].1
                    };
                    let count = if fresh {
                        0
                    } else {
                        w1[i].2
                    };
                    if count >= limit {
                        (false, w1.update(i, (k, reset_at, count)))
                    } else {
                        (true, w1.update(i, (k, reset_at, (count + 1) as u32)))
                    }
                },
            }
        }
    }
}

/// A window of whole seconds in clock milliseconds, saturated.
pub open spec fn window_ms_of(secs: u64) -> u64 {
    if secs <= u64::MAX / 1000 {
        (secs * 1000) as u64
    } else {
        u64::MAX
    }
}

pub struct RateLimiter {
    windows: Vec<(String, Window)>,
    clock: Clock,
}

pub open spec fn entries_view(v: Seq<(String, Window)>) -> Seq<Entry> {
    v.map_values(|e: (String, Window)| (e.0@, e.1.reset_at, e.1.count))
}

proof fn lemma_key_pos(w: Seq<Entry>, k: Seq<char>, i: int)
    requires
        0 <= i,
    ensures
        match key_pos(w, k, i) {
            Some(j) => i <= j < w.len() && w[j].0 == k && forall|m: int| i <= m < j ==> w[m].0 != k,
            None => forall|m: int| i <= m < w.len() ==> w[m].0 != k,
        },
    decreases w.len() - i,
{
    if i < w.len() && w[i].0 != k {
        lemma_key_pos(w, k, i + 1);
    }
}

proof fn lemma_live_subset(w: Seq<Entry>, now: u64)
    ensures
        live(w, now).len() <= w.len(),
        forall|j: int| 0 <= j < live(w, now).len() ==> exists|i: int| 0 <= i < w.len() && w[i] == #[trigger] live(w, now)[j],
    decreases w.len(),
{
    if w.len() > 0 {
        lemma_live_subset(w.drop_last(), now);
        let l = live(w.drop_last(), now);
        assert forall|j: int| 0 <= j < live(w, now).len() implies exists|i: int| 0 <= i < w.len() && w[i] == #[trigger] live(w, now)[j] by {
            if j < l.len() {
                assert(live(w, now)[j] == l[j]);
                let i = choose|i: int| 0 <= i < w.drop_last().len() && w.drop_last()[i] == #[trigger] l[j];
                assert(w[i] == l[j]);
            } else {
                assert(live(w, now)[j] == w[w.len() - 1]);
            }
        }
    }
}

proof fn lemma_live_distinct(w: Seq<Entry>, now: u64)
    requires
        distinct_keys(w),
    ensures
        distinct_keys(live(w, now)),
    decreases w.len(),
{
    if w.len() > 0 {
        let d = w.drop_last();
        assert(distinct_keys(d));
        lemma_live_distinct(d, now);
        lemma_live_subset(d, now);
        let l = live(d, now);
        if w.last().1 > now {
            let r = l.push(w.last());
            assert forall|i: int, j: int| 0 <= i < j < r.len() implies (#[trigger] r[i]).0 != (#[trigger] r[j]).0 by {
                if j == r.len() - 1 {
                    let m = choose|m: int| 0 <= m < d.len() && d[m] == #[trigger] l[i];
                    assert(w[m] == r[i]);
                    assert(w[w.len() - 1] == r[j]);
                } else {
                    assert(r[i] == l[i] && r[j] == l[j]);
                }
            }
        }
    }
}

impl RateLimiter {
    pub closed spec fn view(&self) -> Seq<Entry> {
        entries_view(self.windows@)
    }

    pub closed spec fn wf(&self) -> bool {
        distinct_keys(self.view()) && self.view().len() <= MAX_IDENTITIES
    }

    /// The latest time the limiter's clock read for a decision (ms).
    pub closed spec fn clock_reading(&self) -> u64 {
        self.clock.latest()
    }

    pub fn new() -> (r: RateLimiter)
        ensures
            r.wf(),
            r.view().len() == 0,
    {
        let r = RateLimiter { windows: Vec::new(), clock: Clock::start() };
        assert(r.view() =~= Seq::<Entry>::empty());
        r
    }

    fn position(&self, key: &[char]) -> (r: Option<usize>)
        ensures
            match r {
                Some(i) => key_pos(self.view(), key@, 0) == Some(i as int),
                None => key_pos(self.view(), key@, 0) is None,
            },
    {
        let mut i: usize = 0;
        while i < self.windows.len()
            invariant
                i <= self.windows@.len(),
                self.view().len() == self.windows@.len(),
                key_pos(self.view(), key@, 0) == key_pos(self.view(), key@, i as int),
            decreases self.windows.len() - i,
        {
            let name = chars_of(self.windows[i].0.as_str());
            if chars_eq(&name, key) {
                return Some(i);
            }
            i += 1;
        }
        None
    }

    fn prune(&mut self, now: u64)
        requires
            old(self).wf(),
        ensures
            final(self).view() == live(old(self).view(), now),
            final(self).wf(),
            final(self).clock_reading() == old(self).clock_reading(),
    {
        let ghost w = self.view();
        let mut kept: Vec<(String, Window)> = Vec::new();
        let mut old_windows: Vec<(String, Window)> = Vec::new();
        std::mem::swap(&mut old_windows, &mut self.windows);
        assert(entries_view(old_windows@) == w);
        let mut i: usize = 0;
        assert(entries_view(kept@) =~= live(w.take(0), now));
        while i < old_windows.len()
            invariant
                i <= old_windows@.len(),
                entries_view(old_windows@) == w,
                entries_view(kept@) == live(w.take(i as int), now),
            decreases old_windows.len() - i,
        {
            assert(w.take(i + 1).drop_last() =~= w.take(i as int));
            if old_windows[i].1.reset_at > now {
                let name = old_windows[i].0.clone();
                let ghost before = kept@;
                kept.push((name, old_windows[i].1));
                assert(entries_view(kept@) =~= entries_view(before).push(w[i as int]));
            }
            i += 1;
        }
        self.windows = kept;
        proof {
            assert(w.take(w.len() as int) =~= w);
            lemma_live_distinct(w, now);
            lemma_live_subset(w, now);
        }
    }

    /// Admission for `key` at time `now` (clock milliseconds): at most
    /// `limit` requests per `window_ms`-millisecond window.
    pub fn allow_at(&mut self, key: &str, limit: u32, window_ms: u64, now: u64) -> (r: bool)
        requires
            old(self).wf(),
        ensures
            final(self).wf(),
            (r, final(self).view()) == allow_spec(old(self).view(), key@, limit, window_ms, now),
            final(self).clock_reading() == old(self).clock_reading(),
    {
        if limit == 0 {
            return false;
        }
        let k = chars_of(key);
        let found = self.position(&k);
        if self.windows.len() >= MAX_IDENTITIES && found.is_none() {
            self.prune(now);
            if self.windows.len() >= MAX_IDENTITIES {
                return false;
            }
        }
        let reset = now.saturating_add(window_ms);
        let ghost w1 = self.view();
        proof {
            lemma_key_pos(self.view(), k@, 0);
        }
        match self.position(&k) {
            None => {
                proof {
                    lemma_key_pos(w1, k@, 0);
                }
                let ghost before = self.windows@;
                self.windows.push((String::from_str(key), Window { reset_at: reset, count: 1 }));
                assert(self.view() =~= w1.push((k@, reset, 1u32)));
                proof {
                    assert forall|i: int, j: int| 0 <= i < j < self.view().len() implies (#[trigger] self.view()[i]).0 != (#[trigger] self.view()[j]).0 by {
                        if j == self.view().len() - 1 {
                            assert(w1[i].0 != k@);
                        }
                    }
                }
                true
            },
            Some(i) => {
                proof {
                    lemma_key_pos(w1, k@, 0);
                }
                let cur = self.windows[i].1;
                let fresh = cur.reset_at <= now;
                let reset_at = if fresh { reset } else { cur.reset_at };
                let count = if fresh { 0 } else { cur.count };
                let name = self.windows[i].0.clone();
                if count >= limit {
                    self.windows.set(i, (name, Window { reset_at, count }));
                    assert(self.view() =~= w1.update(i as int, (k@, reset_at, count)));
                    proof {
                        assert forall|a: int, b: int| 0 <= a < b < self.view().len() implies (#[trigger] self.view()[a]).0 != (#[trigger] self.view()[b]).0 by {
                            assert(self.view()[a].0 == w1[a].0 && self.view()[b].0 == w1[b].0);
                        }
                    }
                    false
                } else {
                    self.windows.set(i, (name, Window { reset_at, count: count + 1 }));
                    assert(self.view() =~= w1.update(i as int, (k@, reset_at, (count + 1) as u32)));
                    proof {
                        assert forall|a: int, b: int| 0 <= a < b < self.view().len() implies (#[trigger] self.view()[a]).0 != (#[trigger] self.view()[b]).0 by {
                            assert(self.view()[a].0 == w1[a].0 && self.view()[b].0 == w1[b].0);
                        }
                    }
                    true
                }
            },
        }
    }

    /// Admission for `key` now: at most `limit` requests per window of
    /// `window_secs` seconds. The decision is [`allow_spec`] at the time the
    /// limiter's clock read.
    pub fn allow(&mut self, key: &str, limit: u32, window_secs: u64) -> (r: bool)
        requires
            old(self).wf(),
        ensures
            final(self).wf(),
            exists|now: u64| (r, final(self).view()) == #[trigger] allow_spec(old(self).view(), key@, limit, window_ms_of(window_secs), now)
                && now >= old(self).clock_reading() && final(self).clock_reading() == now,
    {
        let now = self.clock.tick();
        let window_ms = if window_secs <= u64::MAX / 1000 { window_secs * 1000 } else { u64::MAX };
        assert(window_ms == window_ms_of(window_secs));
        let ghost before = self.view();
        let r = self.allow_at(key, limit, window_ms, now);
        assert((r, self.view()) == allow_spec(before, key@, limit, window_ms_of(window_secs), now)
            && now >= old(self).clock_reading() && self.clock_reading() == now);
        r
    }
}

/// The outcome of calls for identity `k` at the given times, in order: how
/// many were admitted, and the windows afterwards.
pub open spec fn run_calls(w: Seq<Entry>, k: Seq<char>, limit: u32, window: u64, times: Seq<u64>) -> (nat, Seq<Entry>)
    decreases times.len(),
{
    if times.len() == 0 {
        (0, w)
    } else {
        let (admitted, w1) = allow_spec(w, k, limit, window, times[0]);
        let (n, w2) = run_calls(w1, k, limit, window, times.drop_first());
        ((n + if admitted { 1nat } else { 0nat }) as nat, w2)
    }
}

proof fn lemma_key_pos_unique(w: Seq<Entry>, k: Seq<char>, i: int)
    requires
        distinct_keys(w),
        0 <= i < w.len(),
        w[i].0 == k,
    ensures
        key_pos(w, k, 0) == Some(i),
{
    lemma_key_pos(w, k, 0);
    if key_pos(w, k, 0) is Some {
        let j = key_pos(w, k, 0).unwrap();
        if j != i {
            if j < i {
                assert(w[j].0 != w[i].0);
            } else {
                assert(w[i].0 != w[j].0);
            }
        }
    }
}

/// Law of the limiter: while an identity's window is open (its reset time
/// lies after every call), calls for it with a given `limit` are admitted at
/// most `limit` times in all, counting those the window already admitted.
pub proof fn law_window_admits_at_most_limit(
    w: Seq<Entry>,
    k: Seq<char>,
    limit: u32,
    window: u64,
    times: Seq<u64>,
    i: int,
)
    requires
        distinct_keys(w),
        0 <= i < w.len(),
        w[i].0 == k,
        forall|j: int| 0 <= j < times.len() ==> #[trigger] times[j] < w[i].1,
    ensures
        run_calls(w, k, limit, window, times).0 + w[i].2 <= limit || run_calls(w, k, limit, window, times).0 == 0,
    decreases times.len(),
{
    if times.len() > 0 {
        lemma_key_pos_unique(w, k, i);
        let t = times[0];
        assert(t < w[i].1);
        let (admitted, w1) = allow_spec(w, k, limit, window, t);
        let rest = times.drop_first();
        assert forall|j: int| 0 <= j < rest.len() implies #[trigger] rest[j] < w1[i].1 by {
            assert(rest[j] == times[j + 1]);
        }
        if limit > 0 {
            assert(w1.len() == w.len());
            assert(w1[i].0 == k && w1[i].1 == w[i].1);
            assert(distinct_keys(w1)) by {
                assert forall|a: int, b: int| 0 <= a < b < w1.len() implies (#[trigger] w1[a]).0 != (#[trigger] w1[b]).0 by {
                    assert(w1[a].0 == w[a].0 && w1[b].0 == w[b].0);
                }
            }
            law_window_admits_at_most_limit(w1, k, limit, window, rest, i);
        } else {
            assert(w1 == w);
            law_window_admits_at_most_limit(w1, k, limit, window, rest, i);
        }
    }
}

/// Law of the limiter: an identity with no window that is admitted opens one
/// holding that single admission, which resets `window` milliseconds later
/// (saturating); a refused new identity is never recorded.
pub proof fn law_first_admission_opens_a_window(w: Seq<Entry>, k: Seq<char>, limit: u32, window: u64, now: u64)
    requires
        distinct_keys(w),
        key_pos(w, k, 0) is None,
    ensures
        ({
            let (admitted, after) = allow_spec(w, k, limit, window, now);
            &&& admitted ==> after.len() > 0 && after.last() == (k, sat_add(now, window), 1u32)
            &&& !admitted ==> key_pos(after, k, 0) is None
        }),
{
    lemma_key_pos(w, k, 0);
    if limit > 0 && w.len() >= MAX_IDENTITIES {
        lemma_live_subset(w, now);
        let l = live(w, now);
        assert forall|m: int| 0 <= m < l.len() implies l[m].0 != k by {
            let j = choose|j: int| 0 <= j < w.len() && w[j] == #[trigger] l[m];
        }
        lemma_key_pos(l, k, 0);
    }
}

/// Law of the limiter: a window closes once its reset time has come. The
/// next call for that identity at or after the reset time is admitted (for
/// any positive limit) and opens a fresh window holding that one admission,
/// which resets `window` milliseconds later; every other identity's window
/// is left as it was.
pub proof fn law_window_resets_once_it_has_closed(w: Seq<Entry>, k: Seq<char>, limit: u32, window: u64, now: u64, i: int)
    requires
        distinct_keys(w),
        0 <= i < w.len(),
        w[i].0 == k,
        w[i].1 <= now,
        limit > 0,
    ensures
        ({
            let (admitted, after) = allow_spec(w, k, limit, window, now);
            &&& admitted
            &&& after.len() == w.len()
            &&& after[i] == (k, sat_add(now, window), 1u32)
            &&& forall|j: int| 0 <= j < w.len() && j != i ==> after[j] == w[j]
        }),
{
    lemma_key_pos_unique(w, k, i);
}

} // verus!
