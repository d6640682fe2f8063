//! Harness sessions registered on this node, so the console can show who is
//! working next to which GPU. Upsert, list and drop: the node only remembers
//! who is working, it never runs the agent loop.
use vstd::prelude::*;
use crate::clock::{unix_millis, Clock};
use crate::text::{
    chars_eq, chars_lt, chars_of, dec_string, decimal_chars, lemma_lex_irreflexive,
    lemma_lex_total, lemma_lex_transitive, lex_lt, push_chars, string_of,
};

verus! {

/// A session whose last heartbeat is older than this (in milliseconds) may
/// not hold a resource lease.
pub const STALE_MS: u64 = 90000;

/// The only VRAM authority a harness session can receive: a record of an
/// approved operation, never a device handle.
#[derive(Debug, Clone)]
pub struct VramCapability {
    /// `none` | `resident` | `loading` | `blocked` | `released`.
    pub status: String,
    pub action: String,
    pub model: String,
    pub endpoint_id: String,
    /// Human-readable admission impact.
    pub impact: String,
    /// Endpoint ids that would need to be evicted.
    pub evicts: Vec<String>,
}

#[derive(Debug, Clone)]
pub struct Session {
    pub id: String,
    pub name: String,
    pub role: String,
    /// `ask` | `preview` | `write`
    pub mode: String,
    pub state: String,
    pub engine: String,
    pub model: String,
    pub plan_step: String,
    pub halt: String,
    pub verification: String,
    pub files: Vec<String>,
    pub changed_files: Vec<String>,
    pub summary: String,
    pub task: String,
    pub workspace: String,
    pub trace_ref: String,
    pub vram: VramCapability,
}

/// An exact copy of a list of strings.
pub fn copy_strings(v: &Vec<String>) -> (r: Vec<String>)
    ensures
        r@ == v@,
{
    let mut r: Vec<String> = Vec::new();
    let mut i: usize = 0;
    while i < v.len()
        invariant
            i <= v@.len(),
            r@ == v@.take(i as int),
        decreases v.len() - i,
    {
        r.push(v[i].clone());
        assert(v@.take(i + 1) =~= v@.take(i as int).push(v@[i as int]));
        i += 1;
    }
    assert(v@.take(v@.len() as int) =~= v@);
    r
}

impl VramCapability {
    /// No capability: status `none`, everything else empty.
    pub fn none() -> (r: VramCapability)
        ensures
            r.status@ == "none"@,
            r.action@.len() == 0,
            r.model@.len() == 0,
            r.endpoint_id@.len() == 0,
            r.impact@.len() == 0,
            r.evicts@.len() == 0,
    {
        VramCapability {
            status: String::from_str("none"),
            action: String::new(),
            model: String::new(),
            endpoint_id: String::new(),
            impact: String::new(),
            evicts: Vec::new(),
        }
    }

    pub fn copy(&self) -> (r: VramCapability)
        ensures
            r@ == self@,
    {
        VramCapability {
            status: self.status.clone(),
            action: self.action.clone(),
            model: self.model.clone(),
            endpoint_id: self.endpoint_id.clone(),
            impact: self.impact.clone(),
            evicts: copy_strings(&self.evicts),
        }
    }
}

impl Session {
    pub fn copy(&self) -> (r: Session)
        ensures
            r@ == self@,
    {
        Session {
            id: self.id.clone(),
            name: self.name.clone(),
            role: self.role.clone(),
            mode: self.mode.clone(),
            state: self.state.clone(),
            engine: self.engine.clone(),
            model: self.model.clone(),
            plan_step: self.plan_step.clone(),
            halt: self.halt.clone(),
            verification: self.verification.clone(),
            files: copy_strings(&self.files),
            changed_files: copy_strings(&self.changed_files),
            summary: self.summary.clone(),
            task: self.task.clone(),
            workspace: self.workspace.clone(),
            trace_ref: self.trace_ref.clone(),
            vram: self.vram.copy(),
        }
    }
}

pub open spec fn strings_view(v: Seq<String>) -> Seq<Seq<char>> {
    v.map_values(|s: String| s@)
}

/// The contents of a VRAM record.
pub struct VramView {
    pub status: Seq<char>,
    pub action: Seq<char>,
    pub model: Seq<char>,
    pub endpoint_id: Seq<char>,
    pub impact: Seq<char>,
    pub evicts: Seq<Seq<char>>,
}

/// The contents of a session record.
pub struct SessionView {
    pub id: Seq<char>,
    pub name: Seq<char>,
    pub role: Seq<char>,
    pub mode: Seq<char>,
    pub state: Seq<char>,
    pub engine: Seq<char>,
    pub model: Seq<char>,
    pub plan_step: Seq<char>,
    pub halt: Seq<char>,
    pub verification: Seq<char>,
    pub files: Seq<Seq<char>>,
    pub changed_files: Seq<Seq<char>>,
    pub summary: Seq<char>,
    pub task: Seq<char>,
    pub workspace: Seq<char>,
    pub trace_ref: Seq<char>,
    pub vram: VramView,
}

impl View for VramCapability {
    type V = VramView;

    open spec fn view(&self) -> VramView {
        VramView {
            status: self.status@,
            action: self.action@,
            model: self.model@,
            endpoint_id: self.endpoint_id@,
            impact: self.impact@,
            evicts: strings_view(self.evicts@),
        }
    }
}

impl View for Session {
    type V = SessionView;

    open spec fn view(&self) -> SessionView {
        SessionView {
            id: self.id@,
            name: self.name@,
            role: self.role@,
            mode: self.mode@,
            state: self.state@,
            engine: self.engine@,
            model: self.model@,
            plan_step: self.plan_step@,
            halt: self.halt@,
            verification: self.verification@,
            files: strings_view(self.files@),
            changed_files: strings_view(self.changed_files@),
            summary: self.summary@,
            task: self.task@,
            workspace: self.workspace@,
            trace_ref: self.trace_ref@,
            vram: self.vram@,
        }
    }
}

struct Live {
    session: Session,
    seen: u64,
}

/// A board entry: the session and when it was last seen (clock ms).
pub type BoardEntry = (SessionView, u64);

pub open spec fn sorted_ids(v: Seq<BoardEntry>) -> bool {
    forall|i: int, j: int| 0 <= i < j < v.len() ==> lex_lt((#[trigger] v[i]).0.id, (#[trigger] v[j]).0.id)
}

/// How many entries sort before `id`: where it is, or would be inserted.
pub open spec fn lower_bound(v: Seq<BoardEntry>, id: Seq<char>) -> int
    decreases v.len(),
{
    if v.len() == 0 {
        0
    } else if lex_lt(v.last().0.id, id) {
        v.len() as int
    } else {
        lower_bound(v.drop_last(), id)
    }
}

/// The position of the session with this id.
pub open spec fn find_id(v: Seq<BoardEntry>, id: Seq<char>) -> Option<int> {
    let p = lower_bound(v, id);
    if 0 <= p < v.len() && v[p].0.id == id {
        Some(p)
    } else {
        None
    }
}

/// The board with `e` stored under its id, replacing any earlier entry.
pub open spec fn put(v: Seq<BoardEntry>, e: BoardEntry) -> Seq<BoardEntry> {
    match find_id(v, e.0.id) {
        Some(p) => v.update(p, e),
        None => v.insert(lower_bound(v, e.0.id), e),
    }
}

pub open spec fn age(seen: u64, now: u64) -> u64 {
    if now >= seen {
        (now - seen) as u64
    } else {
        0
    }
}

/// The ids whose last heartbeat is older than [`STALE_MS`], in id order.
/// The session `id` is on the board with a heartbeat no older than
/// [`STALE_MS`] at `now`.
pub open spec fn live_at(v: Seq<BoardEntry>, id: Seq<char>, now: u64) -> bool {
    match find_id(v, id) {
        Some(p) => age(v[p].1, now) <= STALE_MS,
        None => false,
    }
}

/// A VRAM record made at `now`: a known session takes the record and is
/// marked seen at `now`; an unknown id leaves the board as it was.
pub open spec fn vram_recorded(before: Seq<BoardEntry>, after: Seq<BoardEntry>, id: Seq<char>, vram: VramView, now: u64) -> bool {
    match find_id(before, id) {
        None => after == before,
        Some(p) => after == before.update(p, (SessionView { vram, ..before[p].0 }, now)),
    }
}

/// A board listing taken at `now`: entries older than four stale periods
/// were dropped, and each remaining session has one row, in id order, with
/// whether it is stale and its age in whole seconds at `now`.
pub open spec fn board_rows_at(before: Seq<BoardEntry>, after: Seq<BoardEntry>, r: Seq<(Session, bool, u64)>, now: u64) -> bool {
    &&& after == retained(before, now)
    &&& r.len() == after.len()
    &&& forall|i: int| 0 <= i < r.len() ==> (#[trigger] r[i]).0@ == after[i].0
        && r[i].1 == (age(after[i].1, now) > STALE_MS)
        && r[i].2 == age(after[i].1, now) / 1000
}

pub open spec fn stale_list(v: Seq<BoardEntry>, now: u64) -> Seq<Seq<char>>
    decreases v.len(),
{
    if v.len() == 0 {
        Seq::empty()
    } else if age(v.last().1, now) > STALE_MS {
        stale_list(v.drop_last(), now).push(v.last().0.id)
    } else {
        stale_list(v.drop_last(), now)
    }
}

/// The entries recent enough to stay on the board (younger than four stale
/// periods).
pub open spec fn retained(v: Seq<BoardEntry>, now: u64) -> Seq<BoardEntry>
    decreases v.len(),
{
    if v.len() == 0 {
        v
    } else if age(v.last().1, now) < 4 * STALE_MS {
        retained(v.drop_last(), now).push(v.last())
    } else {
        retained(v.drop_last(), now)
    }
}

proof fn lemma_lower_bound(v: Seq<BoardEntry>, id: Seq<char>)
    requires
        sorted_ids(v),
    ensures
        0 <= lower_bound(v, id) <= v.len(),
        forall|i: int| 0 <= i < lower_bound(v, id) ==> lex_lt((#[trigger] v[i]).0.id, id),
        forall|i: int| lower_bound(v, id) <= i < v.len() ==> !lex_lt((#[trigger] v[i]).0.id, id),
    decreases v.len(),
{
    if v.len() > 0 {
        let d = v.drop_last();
        assert(sorted_ids(d));
        lemma_lower_bound(d, id);
        if lex_lt(v.last().0.id, id) {
            assert forall|i: int| 0 <= i < v.len() implies lex_lt((#[trigger] v[i]).0.id, id) by {
                if i < v.len() - 1 {
                    assert(lex_lt(v[i].0.id, v[v.len() - 1].0.id));
                    lemma_lex_transitive(v[i].0.id, v.last().0.id, id);
                }
            }
        } else {
            assert forall|i: int| 0 <= i < lower_bound(v, id) implies lex_lt((#[trigger] v[i]).0.id, id) by {
                assert(v[i] == d[i]);
            }
            assert forall|i: int| lower_bound(v, id) <= i < v.len() implies !lex_lt((#[trigger] v[i]).0.id, id) by {
                if i < v.len() - 1 {
                    assert(v[i] == d[i]);
                }
            }
        }
    }
}

proof fn lemma_find_id(v: Seq<BoardEntry>, id: Seq<char>)
    requires
        sorted_ids(v),
    ensures
        match find_id(v, id) {
            Some(p) => 0 <= p < v.len() && v[p].0.id == id,
            None => forall|i: int| 0 <= i < v.len() ==> (#[trigger] v[i]).0.id != id,
        },
{
    lemma_lower_bound(v, id);
    let p = lower_bound(v, id);
    if find_id(v, id) is None {
        assert forall|i: int| 0 <= i < v.len() implies (#[trigger] v[i]).0.id != id by {
            if v[i].0.id == id {
                lemma_lex_irreflexive(id);
                if i > p {
                    lemma_lex_total(v[p].0.id, id);
                    assert(lex_lt(v[p].0.id, v[i].0.id));
                }
            }
        }
    }
}

proof fn lemma_put_sorted(v: Seq<BoardEntry>, e: BoardEntry)
    requires
        sorted_ids(v),
    ensures
        sorted_ids(put(v, e)),
        find_id(put(v, e), e.0.id) is Some,
        put(v, e)[find_id(put(v, e), e.0.id).unwrap()] == e,
{
    let id = e.0.id;
    lemma_lower_bound(v, id);
    lemma_find_id(v, id);
    let p = lower_bound(v, id);
    let r = put(v, e);
    if find_id(v, id) is Some {
        assert forall|i: int, j: int| 0 <= i < j < r.len() implies lex_lt((#[trigger] r[i]).0.id, (#[trigger] r[j]).0.id) by {
            assert(r[i].0.id == v[i].0.id && r[j].0.id == v[j].0.id);
        }
    } else {
        assert forall|i: int, j: int| 0 <= i < j < r.len() implies lex_lt((#[trigger] r[i]).0.id, (#[trigger] r[j]).0.id) by {
            if j < p {
                assert(r[i] == v[i] && r[j] == v[j]);
            } else if j == p {
                assert(r[i] == v[i]);
            } else if i == p {
                assert(r[j] == v[j - 1]);
                lemma_lex_total(v[j - 1].0.id, id);
                if j - 1 > p {
                    lemma_lex_total(v[p].0.id, id);
                    lemma_lex_transitive(id, v[p].0.id, v[j - 1].0.id);
                }
            } else if i < p {
                assert(r[i] == v[i] && r[j] == v[j - 1]);
                if j - 1 >= p {
                    lemma_lex_total(v[j - 1].0.id, id);
                    lemma_lex_transitive(v[i].0.id, id, v[j - 1].0.id);
                }
            } else {
                assert(r[i] == v[i - 1] && r[j] == v[j - 1]);
            }
        }
    }
    lemma_lower_bound(r, id);
    lemma_find_id(r, id);
    if find_id(r, id) is None {
        let q = if find_id(v, id) is Some { find_id(v, id).unwrap() } else { p };
        assert(r[q].0.id == id);
    } else {
        let q = find_id(r, id).unwrap();
        let q0 = if find_id(v, id) is Some { find_id(v, id).unwrap() } else { p };
        assert(r[q0].0.id == id);
        if q != q0 {
            if q < q0 {
                assert(lex_lt(r[q].0.id, r[q0].0.id));
            } else {
                assert(lex_lt(r[q0].0.id, r[q].0.id));
            }
            lemma_lex_irreflexive(id);
        }
    }
}

/// The live sessions, kept in id order.
pub struct Board {
    entries: Vec<Live>,
    clock: Clock,
}

spec fn board_view(v: Seq<Live>) -> Seq<BoardEntry> {
    v.map_values(|l: Live| (l.session@, l.seen))
}

impl Board {
    pub closed spec fn view(&self) -> Seq<BoardEntry> {
        board_view(self.entries@)
    }

    pub closed spec fn wf(&self) -> bool {
        sorted_ids(self.view())
    }

    /// The latest time the board's clock read for an update (ms).
    pub closed spec fn clock_reading(&self) -> u64 {
        self.clock.latest()
    }

    pub fn new() -> (r: Board)
        ensures
            r.wf(),
            r.view().len() == 0,
    {
        let r = Board { entries: Vec::new(), clock: Clock::start() };
        assert(r.view() =~= Seq::<BoardEntry>::empty());
        r
    }

    /// Where `id` is, or would be inserted (see [`lower_bound`]).
    fn locate(&self, id: &[char]) -> (r: usize)
        requires
            self.wf(),
        ensures
            r as int == lower_bound(self.view(), id@),
    {
        proof {
            lemma_lower_bound(self.view(), id@);
        }
        let mut i: usize = 0;
        while i < self.entries.len()
            invariant
                self.wf(),
                i <= self.entries@.len(),
                self.view().len() == self.entries@.len(),
                i <= lower_bound(self.view(), id@),
                0 <= lower_bound(self.view(), id@) <= self.view().len(),
                forall|k: int| lower_bound(self.view(), id@) <= k < self.view().len() ==> !lex_lt((#[trigger] self.view()[k]).0.id, id@),
                forall|k: int| 0 <= k < lower_bound(self.view(), id@) ==> lex_lt((#[trigger] self.view()[k]).0.id, id@),
            decreases self.entries.len() - i,
        {
            let name = chars_of(self.entries[i].session.id.as_str());
            assert(self.view()[i as int].0.id == name@);
            if !chars_lt(&name, id) {
                return i;
            }
            i += 1;
        }
        i
    }

    fn find(&self, id: &[char]) -> (r: Option<usize>)
        requires
            self.wf(),
        ensures
            r matches Some(p) ==> find_id(self.view(), id@) == Some(p as int),
            r is None ==> find_id(self.view(), id@) is None,
    {
        let p = self.locate(id);
        if p < self.entries.len() {
            let name = chars_of(self.entries[p].session.id.as_str());
            if chars_eq(&name, id) {
                return Some(p);
            }
        }
        None
    }

    /// Stores a session heartbeat seen at `now` (clock ms). A blank id is
    /// generated from `stamp` (wall-clock ms) as `s<stamp>`; a blank name
    /// falls back to the id; a `none` VRAM record keeps the one already
    /// recorded for the id, so an ordinary heartbeat cannot drop it.
    pub fn upsert_at(&mut self, session: Session, now: u64, stamp: u64) -> (r: Session)
        requires
            old(self).wf(),
        ensures
            final(self).wf(),
            r.id@ == if session.id@.len() == 0 {
                "s"@ + dec_string(stamp as nat)
            } else {
                session.id@
            },
            r.name@ == if session.name@.len() == 0 {
                r.id@
            } else {
                session.name@
            },
            r@.vram == if session.vram.status@ == "none"@ && find_id(old(self).view(), r.id@) is Some {
                old(self).view()[find_id(old(self).view(), r.id@).unwrap()].0.vram
            } else {
                session.vram@
            },
            r@ == (SessionView { id: r@.id, name: r@.name, vram: r@.vram, ..session@ }),
            final(self).view() == put(old(self).view(), (r@, now)),
            final(self).clock_reading() == old(self).clock_reading(),
    {
        let mut session = session;
        if session.id.as_str().is_empty() {
            let mut v = chars_of("s");
            let digits = decimal_chars(stamp);
            push_chars(&mut v, &digits);
            session.id = string_of(&v);
        }
        if session.name.as_str().is_empty() {
            session.name = session.id.clone();
        }
        let id = chars_of(session.id.as_str());
        let status = chars_of(session.vram.status.as_str());
        let found = self.find(&id);
        if crate::text::chars_eq_str(&status, "none") {
            match found {
                Some(p) => {
                    session.vram = self.entries[p].session.vram.copy();
                },
                None => {},
            }
        }
        let result = session.copy();
        let ghost before = self.view();
        proof {
            lemma_put_sorted(before, (session@, now));
            lemma_lower_bound(before, id@);
        }
        match found {
            Some(p) => {
                self.entries.set(p, Live { session, seen: now });
                assert(self.view() =~= before.update(p as int, (result@, now)));
            },
            None => {
                let p = self.locate(&id);
                self.entries.insert(p, Live { session, seen: now });
                assert(self.view() =~= before.insert(p as int, (result@, now)));
            },
        }
        result
    }

    /// Stores a session heartbeat now (see [`Board::upsert_at`]).
    pub fn upsert(&mut self, session: Session) -> (r: Session)
        requires
            old(self).wf(),
        ensures
            final(self).wf(),
            session.id@.len() > 0 ==> r.id@ == session.id@,
            r.name@ == if session.name@.len() == 0 {
                r.id@
            } else {
                session.name@
            },
            exists|now: u64| final(self).view() == #[trigger] put(old(self).view(), (r@, now))
                && now >= old(self).clock_reading() && final(self).clock_reading() == now,
    {
        let now = self.clock.tick();
        let stamp = unix_millis();
        let ghost before = self.view();
        let r = self.upsert_at(session, now, stamp);
        assert(self.view() == put(before, (r@, now))
            && now >= old(self).clock_reading() && self.clock_reading() == now);
        r
    }

    /// Forgets a session; `true` if it was present.
    pub fn remove(&mut self, id: &str) -> (r: bool)
        requires
            old(self).wf(),
        ensures
            final(self).wf(),
            r == find_id(old(self).view(), id@) is Some,
            final(self).view() == match find_id(old(self).view(), id@) {
                Some(p) => old(self).view().remove(p),
                None => old(self).view(),
            },
    {
        let key = chars_of(id);
        match self.find(&key) {
            None => false,
            Some(p) => {
                let ghost before = self.view();
                assert(find_id(before, id@) == Some(p as int));
                self.entries.remove(p);
                assert(self.view() =~= before.remove(p as int));
                assert(self.view() == before.remove(p as int));
                assert forall|i: int, j: int| 0 <= i < j < self.view().len() implies lex_lt((#[trigger] self.view()[i]).0.id, (#[trigger] self.view()[j]).0.id) by {
                    let a = if i < p { i } else { i + 1 };
                    let b = if j < p { j } else { j + 1 };
                    assert(self.view()[i] == before[a] && self.view()[j] == before[b]);
                }
                true
            },
        }
    }

    /// Records the result of a VRAM operation for a known session and
    /// refreshes its heartbeat; an unknown id gets nothing.
    pub fn record_vram_at(&mut self, id: &str, vram: VramCapability, now: u64) -> (r: Option<Session>)
        requires
            old(self).wf(),
        ensures
            final(self).wf(),
            match find_id(old(self).view(), id@) {
                None => r is None && final(self).view() == old(self).view(),
                Some(p) => {
                    let updated = SessionView { vram: vram@, ..old(self).view()[p].0 };
                    &&& r matches Some(s) && s@ == updated
                    &&& final(self).view() == old(self).view().update(p, (updated, now))
                },
            },
            final(self).clock_reading() == old(self).clock_reading(),
    {
        let key = chars_of(id);
        match self.find(&key) {
            None => None,
            Some(p) => {
                let ghost before = self.view();
                let mut session = self.entries[p].session.copy();
                session.vram = vram;
                let result = session.copy();
                self.entries.set(p, Live { session, seen: now });
                assert(self.view() =~= before.update(p as int, (result@, now)));
                assert forall|i: int, j: int| 0 <= i < j < self.view().len() implies lex_lt((#[trigger] self.view()[i]).0.id, (#[trigger] self.view()[j]).0.id) by {
                    assert(self.view()[i].0.id == before[i].0.id && self.view()[j].0.id == before[j].0.id);
                }
                Some(result)
            },
        }
    }

    /// Records a VRAM operation now (see [`Board::record_vram_at`]).
    pub fn record_vram(&mut self, id: &str, vram: VramCapability) -> (r: Option<Session>)
        requires
            old(self).wf(),
        ensures
            final(self).wf(),
            r is Some <==> find_id(old(self).view(), id@) is Some,
            r matches Some(s) ==> s@ == (SessionView { vram: vram@, ..old(self).view()[find_id(old(self).view(), id@).unwrap()].0 }),
            exists|now: u64| #[trigger] vram_recorded(old(self).view(), final(self).view(), id@, vram@, now)
                && now >= old(self).clock_reading() && final(self).clock_reading() == now,
    {
        let now = self.clock.tick();
        let ghost before = self.view();
        let ghost v = vram@;
        let r = self.record_vram_at(id, vram, now);
        assert(vram_recorded(before, self.view(), id@, v, now)
            && now >= old(self).clock_reading() && self.clock_reading() == now);
        r
    }

    pub fn get(&self, id: &str) -> (r: Option<Session>)
        requires
            self.wf(),
        ensures
            match find_id(self.view(), id@) {
                Some(p) => r matches Some(s) && s@ == self.view()[p].0,
                None => r is None,
            },
    {
        let key = chars_of(id);
        match self.find(&key) {
            None => None,
            Some(p) => Some(self.entries[p].session.copy()),
        }
    }

    /// Whether a session is live enough at `now` to make a resource claim:
    /// present, with a heartbeat no older than [`STALE_MS`].
    pub fn contains_at(&self, id: &str, now: u64) -> (r: bool)
        requires
            self.wf(),
        ensures
            r == live_at(self.view(), id@, now),
    {
        let key = chars_of(id);
        match self.find(&key) {
            None => false,
            Some(p) => now.saturating_sub(self.entries[p].seen) <= STALE_MS,
        }
    }

    /// [`Board::contains_at`] at the time the board's clock reads.
    pub fn contains(&self, id: &str) -> (r: bool)
        requires
            self.wf(),
        ensures
            exists|now: u64| r == #[trigger] live_at(self.view(), id@, now) && now >= self.clock_reading(),
    {
        let now = self.clock.now_ms();
        let r = self.contains_at(id, now);
        assert(r == live_at(self.view(), id@, now) && now >= self.clock_reading());
        r
    }

    /// The ids whose heartbeat is too old at `now` to keep a resource lease,
    /// in id order. They stay on the board for diagnosis.
    pub fn stale_ids_at(&self, now: u64) -> (r: Vec<String>)
        ensures
            r@.map_values(|s: String| s@) == stale_list(self.view(), now),
    {
        let mut out: Vec<String> = Vec::new();
        let mut i: usize = 0;
        assert(self.view().take(0) =~= Seq::<BoardEntry>::empty());
        while i < self.entries.len()
            invariant
                i <= self.entries@.len(),
                self.view().len() == self.entries@.len(),
                out@.map_values(|s: String| s@) == stale_list(self.view().take(i as int), now),
            decreases self.entries.len() - i,
        {
            assert(self.view().take(i + 1).drop_last() =~= self.view().take(i as int));
            if now.saturating_sub(self.entries[i].seen) > STALE_MS {
                let ghost before = out@;
                out.push(self.entries[i].session.id.clone());
                assert(out@.map_values(|s: String| s@) =~= before.map_values(|s: String| s@).push(self.view()[i as int].0.id));
            }
            i += 1;
        }
        assert(self.view().take(self.view().len() as int) =~= self.view());
        out
    }

    pub fn stale_ids(&self) -> (r: Vec<String>)
        ensures
            exists|now: u64| r@.map_values(|s: String| s@) == #[trigger] stale_list(self.view(), now)
                && now >= self.clock_reading(),
    {
        let now = self.clock.now_ms();
        let r = self.stale_ids_at(now);
        assert(r@.map_values(|s: String| s@) == stale_list(self.view(), now) && now >= self.clock_reading());
        r
    }

    /// Drops entries older than four stale periods and returns the rest in id
    /// order, each with whether it is stale and its age in whole seconds.
    pub fn list_at(&mut self, now: u64) -> (r: Vec<(Session, bool, u64)>)
        requires
            old(self).wf(),
        ensures
            final(self).wf(),
            final(self).view() == retained(old(self).view(), now),
            r@.len() == final(self).view().len(),
            forall|i: int| 0 <= i < r@.len() ==> (#[trigger] r@[i]).0@ == final(self).view()[i].0
                && r@[i].1 == (age(final(self).view()[i].1, now) > STALE_MS)
                && r@[i].2 == age(final(self).view()[i].1, now) / 1000,
            final(self).clock_reading() == old(self).clock_reading(),
    {
        let ghost w = self.view();
        let mut old_entries: Vec<Live> = Vec::new();
        std::mem::swap(&mut old_entries, &mut self.entries);
        let mut kept: Vec<Live> = Vec::new();
        let mut out: Vec<(Session, bool, u64)> = Vec::new();
        assert(board_view(kept@) =~= retained(w.take(0), now));
        let mut i: usize = 0;
        while i < old_entries.len()
            invariant
                i <= old_entries@.len(),
                board_view(old_entries@) == w,
                board_view(kept@) == retained(w.take(i as int), now),
                out@.len() == kept@.len(),
                forall|k: int| 0 <= k < out@.len() ==> (#[trigger] out@[k]).0@ == board_view(kept@)[k].0
                    && out@[k].1 == (age(board_view(kept@)[k].1, now) > STALE_MS)
                    && out@[k].2 == age(board_view(kept@)[k].1, now) / 1000,
            decreases old_entries.len() - i,
        {
            assert(w.take(i + 1).drop_last() =~= w.take(i as int));
            let a = now.saturating_sub(old_entries[i].seen);
            if a < 4 * STALE_MS {
                let ghost before = kept@;
                let s1 = old_entries[i].session.copy();
                let s2 = old_entries[i].session.copy();
                kept.push(Live { session: s1, seen: old_entries[i].seen });
                out.push((s2, a > STALE_MS, a / 1000));
                assert(board_view(kept@) =~= board_view(before).push(w[i as int]));
            }
            i += 1;
        }
        assert(w.take(w.len() as int) =~= w);
        self.entries = kept;
        proof {
            lemma_retained_sorted(w, now);
        }
        out
    }

    /// The board now (see [`Board::list_at`]).
    pub fn list(&mut self) -> (r: Vec<(Session, bool, u64)>)
        requires
            old(self).wf(),
        ensures
            final(self).wf(),
            exists|now: u64| final(self).view() == #[trigger] retained(old(self).view(), now),
            r@.len() == final(self).view().len(),
            exists|now: u64| #[trigger] board_rows_at(old(self).view(), final(self).view(), r@, now)
                && now >= old(self).clock_reading() && final(self).clock_reading() == now,
    {
        let now = self.clock.tick();
        let ghost before = self.view();
        let r = self.list_at(now);
        assert(board_rows_at(before, self.view(), r@, now)
            && now >= old(self).clock_reading() && self.clock_reading() == now);
        assert(self.view() == retained(before, now));
        r
    }
}

proof fn lemma_retained_sorted(v: Seq<BoardEntry>, now: u64)
    requires
        sorted_ids(v),
    ensures
        sorted_ids(retained(v, now)),
        forall|j: int| 0 <= j < retained(v, now).len() ==> exists|i: int| 0 <= i < v.len() && v[i] == #[trigger] retained(v, now)[j],
    decreases v.len(),
{
    if v.len() > 0 {
        let d = v.drop_last();
        assert(sorted_ids(d));
        lemma_retained_sorted(d, now);
        let l = retained(d, now);
        let r = retained(v, now);
        assert forall|j: int| 0 <= j < r.len() implies exists|i: int| 0 <= i < v.len() && v[i] == #[trigger] r[j] by {
            if j < l.len() {
                assert(r[j] == l[j]);
                let i = choose|i: int| 0 <= i < d.len() && d[i] == #[trigger] l[j];
                assert(v[i] == l[j]);
            } else {
                assert(r[j] == v[v.len() - 1]);
            }
        }
        if age(v.last().1, now) < 4 * STALE_MS {
            assert forall|i: int, j: int| 0 <= i < j < r.len() implies lex_lt((#[trigger] r[i]).0.id, (#[trigger] r[j]).0.id) by {
                if j == r.len() - 1 {
                    let m = choose|m: int| 0 <= m < d.len() && d[m] == #[trigger] l[i];
                    assert(v[m] == r[i]);
                    assert(r[j] == v[v.len() - 1]);
                } else {
                    assert(r[i] == l[i] && r[j] == l[j]);
                }
            }
        }
    }
}

} // verus!
