//! The hub's farm: every node that has phoned home, keyed by node id.
//!
//! A node registers (or re-registers) and heartbeats; the hub keeps the
//! roster in id order, computes liveness from when each node was last seen,
//! drops nodes silent for too long, and can look up where to push work to a
//! node. The callback address and key a node first enrolled with are locked:
//! a later registration of the same id refreshes everything else but never
//! those. A safety ceiling on the number of nodes evicts the least recently
//! seen one to make room. A node's self-description is kept as the JSON text
//! it sent, and dropped when it is too large.
use vstd::prelude::*;
use crate::clock::Clock;
use crate::keyed::{
    key_find, key_lower_bound, key_put, keys_sorted, lemma_key_find, lemma_key_lower_bound,
    lemma_key_put, lemma_key_remove, lemma_key_unique, lemma_key_update,
};
use crate::sessions::age;
use crate::text::{
    char_utf8_len, chars_eq, chars_lt, chars_of, copy_range, lemma_lex_transitive, lex_lt,
    string_of, trim, trim_chars, utf8_len,
};

verus! {

/// A node is online if it phoned home within this window (ms).
pub const ONLINE_WINDOW_MS: u64 = 45_000;
/// A node silent this long is dropped from the farm (ms).
pub const DROP_AFTER_MS: u64 = 900_000;
/// The safety ceiling on enrolled nodes.
pub const MAX_NODES: usize = 10_000;
/// The most bytes a node id may take.
pub const MAX_NODE_ID_LEN: usize = 256;
/// The most bytes of self-description kept per node.
pub const MAX_NODE_BLOB_BYTES: usize = 65_536;

/// What a node sends to register. `node` is its self-description as JSON
/// text, `None` when it sent none (or `null`).
pub struct Registration {
    pub node_id: String,
    pub name: String,
    pub address: String,
    pub key: Option<String>,
    pub cameo_version: String,
    pub node: Option<Vec<u8>>,
}

/// What the farm holds of one node.
pub struct NodeView {
    pub name: Seq<char>,
    pub address: Seq<char>,
    pub key: Option<Seq<char>>,
    pub cameo_version: Seq<char>,
    pub node: Option<Seq<u8>>,
    pub last_seen: u64,
}

pub type FarmEntry = (Seq<char>, NodeView);

pub open spec fn opt_str(o: Option<String>) -> Option<Seq<char>> {
    match o {
        Some(s) => Some(s@),
        None => None,
    }
}

pub open spec fn opt_bytes(o: Option<Vec<u8>>) -> Option<Seq<u8>> {
    match o {
        Some(b) => Some(b@),
        None => None,
    }
}

/// The first of id, name and address that is not blank, trimmed; else `node`.
pub open spec fn pick_id_spec(node_id: Seq<char>, name: Seq<char>, address: Seq<char>) -> Seq<char> {
    if trim(node_id).len() > 0 {
        trim(node_id)
    } else if trim(name).len() > 0 {
        trim(name)
    } else if trim(address).len() > 0 {
        trim(address)
    } else {
        "node"@
    }
}

/// How many characters of `s` from index `i` on fit in `budget` bytes.
pub open spec fn fit_count(s: Seq<char>, i: int, budget: int) -> int
    decreases s.len() - i,
{
    if i < 0 || i >= s.len() || char_utf8_len(s[i]) > budget {
        i
    } else {
        fit_count(s, i + 1, budget - char_utf8_len(s[i]))
    }
}

/// An id cut on a character boundary to at most [`MAX_NODE_ID_LEN`] bytes:
/// its leading characters, as many as fit.
pub open spec fn cap_id_spec(s: Seq<char>) -> Seq<char> {
    s.take(fit_count(s, 0, MAX_NODE_ID_LEN as int))
}

proof fn lemma_fit_count(s: Seq<char>, i: int, budget: int)
    requires
        0 <= i <= s.len(),
        0 <= budget,
    ensures
        i <= fit_count(s, i, budget) <= s.len(),
        utf8_len(s.take(fit_count(s, i, budget))) <= utf8_len(s.take(i)) + budget,
    decreases s.len() - i,
{
    if i < s.len() && char_utf8_len(s[i]) <= budget {
        lemma_fit_count(s, i + 1, budget - char_utf8_len(s[i]));
        assert(s.take(i + 1).drop_last() =~= s.take(i));
    }
}

/// Law: a capped id is at most [`MAX_NODE_ID_LEN`] bytes of UTF-8, and a
/// prefix of the id it came from.
pub proof fn law_capped_ids_fit(s: Seq<char>)
    ensures
        utf8_len(cap_id_spec(s)) <= MAX_NODE_ID_LEN,
        s.len() >= cap_id_spec(s).len(),
        cap_id_spec(s) == s.take(cap_id_spec(s).len() as int),
{
    lemma_fit_count(s, 0, MAX_NODE_ID_LEN as int);
    assert(s.take(0).len() == 0);
}

/// Whether a self-description is too large to keep.
pub open spec fn too_big(node: Option<Seq<u8>>) -> bool {
    node matches Some(b) && b.len() > MAX_NODE_BLOB_BYTES
}

/// The nodes heard from within [`DROP_AFTER_MS`] at `now`.
pub open spec fn prune_spec(v: Seq<FarmEntry>, now: u64) -> Seq<FarmEntry>
    decreases v.len(),
{
    if v.len() == 0 {
        v
    } else if age(v.last().1.last_seen, now) < DROP_AFTER_MS {
        prune_spec(v.drop_last(), now).push(v.last())
    } else {
        prune_spec(v.drop_last(), now)
    }
}

/// The first position holding the least recently seen node.
pub open spec fn oldest(v: Seq<FarmEntry>) -> int
    decreases v.len(),
{
    if v.len() <= 1 {
        0
    } else {
        let j = oldest(v.drop_last());
        if v.last().1.last_seen < v[j].1.last_seen {
            v.len() - 1
        } else {
            j
        }
    }
}

/// Registering at `now`: the id is picked and capped; an oversize
/// description is dropped; silent nodes are pruned. A known id keeps its
/// address and key and refreshes the rest; a new id makes room at the
/// ceiling by evicting the least recently seen node, then enrolls.
pub open spec fn register_spec(v: Seq<FarmEntry>, reg: Registration, now: u64) -> (Seq<char>, Seq<FarmEntry>) {
    let id = cap_id_spec(pick_id_spec(reg.node_id@, reg.name@, reg.address@));
    let node = if too_big(opt_bytes(reg.node)) { None } else { opt_bytes(reg.node) };
    let p = prune_spec(v, now);
    match key_find(p, id) {
        Some(i) => (id, p.update(i, (id, NodeView {
            name: reg.name@,
            cameo_version: reg.cameo_version@,
            node,
            last_seen: now,
            ..p[i].1
        }))),
        None => {
            let q = if p.len() >= MAX_NODES { p.remove(oldest(p)) } else { p };
            (id, key_put(q, id, NodeView {
                name: reg.name@,
                address: reg.address@,
                key: opt_str(reg.key),
                cameo_version: reg.cameo_version@,
                node,
                last_seen: now,
            }))
        },
    }
}

/// A listing of the online nodes taken at `now`: the silent nodes were
/// dropped, and each online node is listed, in id order, with its
/// self-description.
pub open spec fn online_at(
    before: Seq<FarmEntry>,
    after: Seq<FarmEntry>,
    r: Seq<(String, Option<Vec<u8>>)>,
    now: u64,
) -> bool {
    &&& after == prune_spec(before, now)
    &&& r.len() == online_spec(after, now).len()
    &&& forall|i: int| 0 <= i < r.len() ==> (#[trigger] r[i]).0@ == online_spec(after, now)[i].0
        && opt_bytes(r[i].1) == online_spec(after, now)[i].1.node
}

/// A roster listing taken at `now`: the silent nodes were dropped, and each
/// remaining node has one row, in id order, with its name (its id when it
/// gave none), address, version, online state and age at `now`, and its
/// self-description.
pub open spec fn rows_at(before: Seq<FarmEntry>, after: Seq<FarmEntry>, r: Seq<FarmRow>, now: u64) -> bool {
    &&& after == prune_spec(before, now)
    &&& r.len() == after.len()
    &&& forall|i: int| 0 <= i < r.len() ==> {
        let e = #[trigger] after[i];
        &&& r[i].node_id@ == e.0
        &&& r[i].name@ == (if e.1.name.len() == 0 { e.0 } else { e.1.name })
        &&& r[i].address@ == e.1.address
        &&& r[i].cameo_version@ == e.1.cameo_version
        &&& r[i].online == (age(e.1.last_seen, now) < ONLINE_WINDOW_MS)
        &&& r[i].age_secs == age(e.1.last_seen, now) / 1000
        &&& opt_bytes(r[i].node) == e.1.node
    }
}

/// A heartbeat at `now` from `id`: silent nodes are pruned; a known node is
/// marked seen and takes the beat's description when it carries one that
/// is not too large; an unknown node is refused.
pub open spec fn heartbeat_spec(v: Seq<FarmEntry>, id: Seq<char>, node: Option<Seq<u8>>, now: u64) -> (bool, Seq<FarmEntry>) {
    let p = prune_spec(v, now);
    match key_find(p, id) {
        Some(i) => (true, p.update(i, (id, NodeView {
            last_seen: now,
            node: if node is Some && !too_big(node) { node } else { p[i].1.node },
            ..p[i].1
        }))),
        None => (false, p),
    }
}

/// The online nodes (seen within [`ONLINE_WINDOW_MS`]), in id order.
pub open spec fn online_spec(v: Seq<FarmEntry>, now: u64) -> Seq<FarmEntry>
    decreases v.len(),
{
    if v.len() == 0 {
        v
    } else if age(v.last().1.last_seen, now) < ONLINE_WINDOW_MS {
        online_spec(v.drop_last(), now).push(v.last())
    } else {
        online_spec(v.drop_last(), now)
    }
}

struct Enrolled {
    node_id: String,
    name: String,
    address: String,
    key: Option<String>,
    cameo_version: String,
    node: Option<Vec<u8>>,
    last_seen: u64,
}

spec fn entry_view(e: Enrolled) -> FarmEntry {
    (e.node_id@, NodeView {
        name: e.name@,
        address: e.address@,
        key: opt_str(e.key),
        cameo_version: e.cameo_version@,
        node: opt_bytes(e.node),
        last_seen: e.last_seen,
    })
}

spec fn entries_view(v: Seq<Enrolled>) -> Seq<FarmEntry> {
    v.map_values(|e: Enrolled| entry_view(e))
}

/// One dashboard row: the node, whether it is online, how long since it was
/// seen (whole seconds), and its self-description.
pub struct FarmRow {
    pub node_id: String,
    /// The node's name, or its id when it gave none.
    pub name: String,
    pub address: String,
    pub cameo_version: String,
    pub online: bool,
    pub age_secs: u64,
    pub node: Option<Vec<u8>>,
}

fn copy_bytes(b: &Vec<u8>) -> (r: Vec<u8>)
    ensures
        r@ == b@,
{
    let mut r: Vec<u8> = Vec::new();
    r.extend_from_slice(b.as_slice());
    assert(r@ =~= b@);
    r
}

fn copy_opt_bytes(b: &Option<Vec<u8>>) -> (r: Option<Vec<u8>>)
    ensures
        opt_bytes(r) == opt_bytes(*b),
{
    match b {
        Some(v) => Some(copy_bytes(v)),
        None => None,
    }
}

fn copy_opt_string(s: &Option<String>) -> (r: Option<String>)
    ensures
        opt_str(r) == opt_str(*s),
{
    match s {
        Some(v) => Some(v.clone()),
        None => None,
    }
}

fn pick_id(reg: &Registration) -> (r: String)
    ensures
        r@ == pick_id_spec(reg.node_id@, reg.name@, reg.address@),
{
    let a = trim_chars(&chars_of(reg.node_id.as_str()));
    if a.len() > 0 {
        return string_of(&a);
    }
    let b = trim_chars(&chars_of(reg.name.as_str()));
    if b.len() > 0 {
        return string_of(&b);
    }
    let c = trim_chars(&chars_of(reg.address.as_str()));
    if c.len() > 0 {
        return string_of(&c);
    }
    String::from_str("node")
}

fn char_len_utf8(c: char) -> (r: usize)
    ensures
        r == char_utf8_len(c),
{
    let u = c as u32;
    if u < 0x80 {
        1
    } else if u < 0x800 {
        2
    } else if u < 0x10000 {
        3
    } else {
        4
    }
}

/// Cuts an id to at most [`MAX_NODE_ID_LEN`] bytes on a character boundary.
pub fn cap_id_len(s: String) -> (r: String)
    ensures
        r@ == cap_id_spec(s@),
{
    let c = chars_of(s.as_str());
    let mut i: usize = 0;
    let mut budget: usize = MAX_NODE_ID_LEN;
    while i < c.len() && char_len_utf8(c[i]) <= budget
        invariant
            i <= c@.len(),
            budget <= MAX_NODE_ID_LEN,
            fit_count(c@, 0, MAX_NODE_ID_LEN as int) == fit_count(c@, i as int, budget as int),
        decreases c.len() - i,
    {
        budget = budget - char_len_utf8(c[i]);
        i += 1;
    }
    string_of(&copy_range(&c, 0, i))
}

fn too_big_exec(node: &Option<Vec<u8>>) -> (r: bool)
    ensures
        r == too_big(opt_bytes(*node)),
{
    match node {
        Some(b) => b.len() > MAX_NODE_BLOB_BYTES,
        None => false,
    }
}

proof fn lemma_prune_sorted(v: Seq<FarmEntry>, now: u64)
    requires
        keys_sorted(v),
    ensures
        keys_sorted(prune_spec(v, now)),
        prune_spec(v, now).len() <= v.len(),
        forall|i: int| #![trigger prune_spec(v, now)[i]] 0 <= i < prune_spec(v, now).len() ==> exists|j: int| 0 <= j < v.len() && prune_spec(v, now)[i] == #[trigger] v[j],
    decreases v.len(),
{
    if v.len() > 0 {
        let d = v.drop_last();
        assert(keys_sorted(d));
        lemma_prune_sorted(d, now);
        let p = prune_spec(d, now);
        assert forall|i: int| #![trigger p[i]] 0 <= i < p.len() implies exists|j: int| 0 <= j < v.len() && p[i] == #[trigger] v[j] by {
            let j = choose|j: int| 0 <= j < d.len() && p[i] == #[trigger] d[j];
            assert(v[j] == d[j]);
        }
        if age(v.last().1.last_seen, now) < DROP_AFTER_MS {
            let r = p.push(v.last());
            assert forall|i: int, j: int| 0 <= i < j < r.len() implies lex_lt((#[trigger] r[i]).0, (#[trigger] r[j]).0) by {
                if j == r.len() - 1 {
                    let k = choose|k: int| 0 <= k < d.len() && p[i] == #[trigger] d[k];
                    assert(v[k] == d[k]);
                    assert(lex_lt(v[k].0, v[v.len() - 1].0));
                } else {
                    assert(r[i] == p[i] && r[j] == p[j]);
                }
            }
            assert forall|i: int| #![trigger r[i]] 0 <= i < r.len() implies exists|j: int| 0 <= j < v.len() && r[i] == #[trigger] v[j] by {
                if i == r.len() - 1 {
                    assert(r[i] == v[v.len() - 1]);
                } else {
                    assert(r[i] == p[i]);
                }
            }
        }
    }
}

proof fn lemma_online_sorted(v: Seq<FarmEntry>, now: u64)
    requires
        keys_sorted(v),
    ensures
        keys_sorted(online_spec(v, now)),
        forall|i: int| #![trigger online_spec(v, now)[i]] 0 <= i < online_spec(v, now).len() ==> exists|j: int| 0 <= j < v.len() && online_spec(v, now)[i] == #[trigger] v[j],
    decreases v.len(),
{
    if v.len() > 0 {
        let d = v.drop_last();
        assert(keys_sorted(d));
        lemma_online_sorted(d, now);
        let p = online_spec(d, now);
        assert forall|i: int| #![trigger p[i]] 0 <= i < p.len() implies exists|j: int| 0 <= j < v.len() && p[i] == #[trigger] v[j] by {
            let j = choose|j: int| 0 <= j < d.len() && p[i] == #[trigger] d[j];
            assert(v[j] == d[j]);
        }
        if age(v.last().1.last_seen, now) < ONLINE_WINDOW_MS {
            let r = p.push(v.last());
            assert forall|i: int, j: int| 0 <= i < j < r.len() implies lex_lt((#[trigger] r[i]).0, (#[trigger] r[j]).0) by {
                if j == r.len() - 1 {
                    let k = choose|k: int| 0 <= k < d.len() && p[i] == #[trigger] d[k];
                    assert(v[k] == d[k]);
                    assert(lex_lt(v[k].0, v[v.len() - 1].0));
                } else {
                    assert(r[i] == p[i] && r[j] == p[j]);
                }
            }
            assert forall|i: int| #![trigger r[i]] 0 <= i < r.len() implies exists|j: int| 0 <= j < v.len() && r[i] == #[trigger] v[j] by {
                if i == r.len() - 1 {
                    assert(r[i] == v[v.len() - 1]);
                } else {
                    assert(r[i] == p[i]);
                }
            }
        }
    }
}

proof fn lemma_oldest(v: Seq<FarmEntry>)
    requires
        v.len() > 0,
    ensures
        0 <= oldest(v) < v.len(),
        forall|i: int| 0 <= i < v.len() ==> v[oldest(v)].1.last_seen <= (#[trigger] v[i]).1.last_seen,
        forall|i: int| 0 <= i < oldest(v) ==> v[oldest(v)].1.last_seen < (#[trigger] v[i]).1.last_seen,
    decreases v.len(),
{
    if v.len() > 1 {
        let d = v.drop_last();
        lemma_oldest(d);
        let j = oldest(d);
        assert forall|i: int| 0 <= i < d.len() implies (#[trigger] v[i]) == d[i] by {}
    }
}

/// The farm: enrolled nodes in id order, and the clock liveness is read
/// from.
pub struct Farm {
    entries: Vec<Enrolled>,
    clock: Clock,
}

impl Farm {
    pub closed spec fn view(&self) -> Seq<FarmEntry> {
        entries_view(self.entries@)
    }

    /// Nodes are in strictly increasing id order, at most [`MAX_NODES`].
    pub closed spec fn wf(&self) -> bool {
        keys_sorted(self.view()) && self.view().len() <= MAX_NODES
    }

    /// The latest time the farm's clock read for a heartbeat (ms).
    pub closed spec fn clock_reading(&self) -> u64 {
        self.clock.latest()
    }

    pub fn new() -> (r: Farm)
        ensures
            r.wf(),
            r.view().len() == 0,
    {
        let r = Farm { entries: Vec::new(), clock: Clock::start() };
        assert(r.view() =~= Seq::<FarmEntry>::empty());
        r
    }

    fn locate(&self, id: &[char]) -> (r: usize)
        requires
            keys_sorted(self.view()),
        ensures
            r as int == key_lower_bound(self.view(), id@),
    {
        proof {
            lemma_key_lower_bound(self.view(), id@);
        }
        let mut i: usize = 0;
        while i < self.entries.len()
            invariant
                keys_sorted(self.view()),
                i <= self.entries@.len(),
                self.view().len() == self.entries@.len(),
                i <= key_lower_bound(self.view(), id@),
                0 <= key_lower_bound(self.view(), id@) <= self.view().len(),
                forall|k: int| key_lower_bound(self.view(), id@) <= k < self.view().len() ==> !lex_lt((#[trigger] self.view()[k]).0, id@),
                forall|k: int| 0 <= k < key_lower_bound(self.view(), id@) ==> lex_lt((#[trigger] self.view()[k]).0, id@),
            decreases self.entries.len() - i,
        {
            let name = chars_of(self.entries[i].node_id.as_str());
            assert(self.view()[i as int].0 == name@);
            if !chars_lt(&name, id) {
                return i;
            }
            i += 1;
        }
        i
    }

    fn find(&self, id: &[char]) -> (r: Option<usize>)
        requires
            keys_sorted(self.view()),
        ensures
            r matches Some(p) ==> key_find(self.view(), id@) == Some(p as int),
            r is None ==> key_find(self.view(), id@) is None,
    {
        let p = self.locate(id);
        if p < self.entries.len() {
            let name = chars_of(self.entries[p].node_id.as_str());
            if chars_eq(&name, id) {
                return Some(p);
            }
        }
        None
    }

    /// Drops the nodes silent past [`DROP_AFTER_MS`] at `now`.
    fn prune(&mut self, now: u64)
        requires
            old(self).wf(),
        ensures
            final(self).wf(),
            final(self).view() == prune_spec(old(self).view(), now),
            final(self).clock_reading() == old(self).clock_reading(),
    {
        let ghost w = self.view();
        let ghost reading = self.clock_reading();
        proof {
            lemma_prune_sorted(w, now);
        }
        let mut all: Vec<Enrolled> = Vec::new();
        std::mem::swap(&mut all, &mut self.entries);
        let mut i: usize = 0;
        assert(entries_view(self.entries@) =~= prune_spec(w.take(0), now));
        while i < all.len()
            invariant
                i <= all@.len(),
                entries_view(all@) == w,
                entries_view(self.entries@) == prune_spec(w.take(i as int), now),
                self.clock_reading() == reading,
            decreases all.len() - i,
        {
            assert(w.take(i + 1).drop_last() =~= w.take(i as int));
            assert(w.take(i + 1).last() == w[i as int]);
            let e = &all[i];
            if now.saturating_sub(e.last_seen) < DROP_AFTER_MS {
                let kept = Enrolled {
                    node_id: e.node_id.clone(),
                    name: e.name.clone(),
                    address: e.address.clone(),
                    key: copy_opt_string(&e.key),
                    cameo_version: e.cameo_version.clone(),
                    node: copy_opt_bytes(&e.node),
                    last_seen: e.last_seen,
                };
                let ghost before = self.entries@;
                self.entries.push(kept);
                assert(entries_view(self.entries@) =~= entries_view(before).push(w[i as int]));
            }
            i += 1;
        }
        assert(w.take(all@.len() as int) =~= w);
    }

    /// Registers or refreshes a node at `now` (clock ms), returning the id
    /// the hub assigned (see [`register_spec`]).
    pub fn register_at(&mut self, reg: Registration, now: u64) -> (r: String)
        requires
            old(self).wf(),
        ensures
            final(self).wf(),
            (r@, final(self).view()) == register_spec(old(self).view(), reg, now),
            final(self).clock_reading() == old(self).clock_reading(),
    {
        let ghost g = reg;
        let id = cap_id_len(pick_id(&reg));
        let node = if too_big_exec(&reg.node) { None } else { reg.node };
        self.prune(now);
        let ghost p = self.view();
        let idc = chars_of(id.as_str());
        proof {
            lemma_key_find(p, id@);
        }
        match self.find(&idc) {
            Some(i) => {
                self.refresh(i, reg.name, reg.cameo_version, node, now);
            },
            None => {
                if self.entries.len() >= MAX_NODES {
                    self.evict_oldest();
                    proof {
                        lemma_oldest(p);
                        let o = oldest(p);
                        assert forall|k: int| 0 <= k < self.view().len() implies (#[trigger] self.view()[k]).0 != id@ by {
                            if k < o {
                                assert(self.view()[k] == p[k]);
                            } else {
                                assert(self.view()[k] == p[k + 1]);
                            }
                        }
                    }
                }
                let ghost q = self.view();
                assert(q == (if p.len() >= MAX_NODES { p.remove(oldest(p)) } else { p }));
                self.enroll(&idc, id.clone(), reg.name, reg.address, reg.key, reg.cameo_version, node, now);
            },
        }
        id
    }

    /// Marks the node at `i` seen at `now` with a new name, version and
    /// description; its id, address and key stay.
    fn refresh(&mut self, i: usize, name: String, cameo_version: String, node: Option<Vec<u8>>, now: u64)
        requires
            keys_sorted(old(self).view()),
            old(self).view().len() <= MAX_NODES,
            i < old(self).view().len(),
        ensures
            keys_sorted(final(self).view()),
            final(self).view() == old(self).view().update(i as int, (old(self).view()[i as int].0, NodeView {
                name: name@,
                cameo_version: cameo_version@,
                node: opt_bytes(node),
                last_seen: now,
                ..old(self).view()[i as int].1
            })),
            final(self).clock_reading() == old(self).clock_reading(),
    {
        let ghost p = self.view();
        let e = &self.entries[i];
        let updated = Enrolled {
            node_id: e.node_id.clone(),
            name,
            address: e.address.clone(),
            key: copy_opt_string(&e.key),
            cameo_version,
            node,
            last_seen: now,
        };
        self.entries.set(i, updated);
        proof {
            lemma_key_update(p, i as int, self.view()[i as int].1);
        }
        assert(self.view() =~= p.update(i as int, (p[i as int].0, self.view()[i as int].1)));
    }

    /// Enrolls a node whose id is not yet in the farm.
    fn enroll(&mut self, idc: &[char], id: String, name: String, address: String, key: Option<String>, cameo_version: String, node: Option<Vec<u8>>, now: u64)
        requires
            keys_sorted(old(self).view()),
            old(self).view().len() < MAX_NODES,
            idc@ == id@,
            forall|k: int| 0 <= k < old(self).view().len() ==> (#[trigger] old(self).view()[k]).0 != id@,
        ensures
            final(self).wf(),
            final(self).view() == key_put(old(self).view(), id@, NodeView {
                name: name@,
                address: address@,
                key: opt_str(key),
                cameo_version: cameo_version@,
                node: opt_bytes(node),
                last_seen: now,
            }),
            final(self).clock_reading() == old(self).clock_reading(),
    {
        let ghost q = self.view();
        let ghost x = NodeView {
            name: name@,
            address: address@,
            key: opt_str(key),
            cameo_version: cameo_version@,
            node: opt_bytes(node),
            last_seen: now,
        };
        proof {
            lemma_key_put(q, id@, x);
            lemma_key_lower_bound(q, id@);
            assert(key_find(q, id@) is None);
        }
        let at = self.locate(idc);
        self.entries.insert(at, Enrolled { node_id: id, name, address, key, cameo_version, node, last_seen: now });
        assert(self.view() =~= q.insert(at as int, (idc@, x)));
    }

    /// Evicts the least recently seen node (the first such in id order).
    fn evict_oldest(&mut self)
        requires
            keys_sorted(old(self).view()),
            old(self).view().len() > 0,
        ensures
            keys_sorted(final(self).view()),
            final(self).view() == old(self).view().remove(oldest(old(self).view())),
            forall|i: int| #![trigger final(self).view()[i]] 0 <= i < final(self).view().len() ==> exists|j: int| 0 <= j < old(self).view().len() && final(self).view()[i] == #[trigger] old(self).view()[j],
            final(self).clock_reading() == old(self).clock_reading(),
    {
        let ghost w = self.view();
        let mut best: usize = 0;
        let mut i: usize = 1;
        assert(w.take(1).len() == 1);
        while i < self.entries.len()
            invariant
                1 <= i <= self.entries@.len(),
                self.view() == w,
                w.len() == self.entries@.len(),
                best as int == oldest(w.take(i as int)),
            decreases self.entries.len() - i,
        {
            assert(w.take(i + 1).drop_last() =~= w.take(i as int));
            proof {
                lemma_oldest(w.take(i as int));
            }
            assert(w.take(i as int)[best as int] == w[best as int]);
            if self.entries[i].last_seen < self.entries[best].last_seen {
                best = i;
            }
            i += 1;
        }
        assert(w.take(w.len() as int) =~= w);
        proof {
            lemma_oldest(w);
            lemma_key_remove(w, best as int);
        }
        self.entries.remove(best);
        assert(self.view() =~= w.remove(best as int));
        assert forall|k: int| #![trigger self.view()[k]] 0 <= k < self.view().len() implies exists|j: int| 0 <= j < w.len() && self.view()[k] == #[trigger] w[j] by {
            if k < best {
                assert(self.view()[k] == w[k]);
            } else {
                assert(self.view()[k] == w[k + 1]);
            }
        }
    }

    /// Registers or refreshes a node now (see [`Farm::register_at`]).
    pub fn register(&mut self, reg: Registration) -> (r: String)
        requires
            old(self).wf(),
        ensures
            final(self).wf(),
            exists|now: u64| (r@, final(self).view()) == #[trigger] register_spec(old(self).view(), reg, now)
                && now >= old(self).clock_reading() && final(self).clock_reading() == now,
    {
        let now = self.clock.tick();
        let ghost before = self.view();
        let ghost g = reg;
        let r = self.register_at(reg, now);
        assert((r@, self.view()) == register_spec(before, g, now)
            && now >= old(self).clock_reading() && self.clock_reading() == now);
        r
    }

    /// A heartbeat from `node_id` at `now`; `false` when the node is not
    /// enrolled, which its agent takes as the cue to register again.
    pub fn heartbeat_at(&mut self, node_id: &str, node: Option<Vec<u8>>, now: u64) -> (r: bool)
        requires
            old(self).wf(),
        ensures
            final(self).wf(),
            (r, final(self).view()) == heartbeat_spec(old(self).view(), node_id@, opt_bytes(node), now),
            final(self).clock_reading() == old(self).clock_reading(),
    {
        self.prune(now);
        let ghost p = self.view();
        let idc = chars_of(node_id);
        proof {
            lemma_key_find(p, node_id@);
        }
        match self.find(&idc) {
            Some(i) => {
                let keep = node.is_some() && !too_big_exec(&node);
                let e = &self.entries[i];
                let new_node = if keep { node } else { copy_opt_bytes(&e.node) };
                let updated = Enrolled {
                    node_id: e.node_id.clone(),
                    name: e.name.clone(),
                    address: e.address.clone(),
                    key: copy_opt_string(&e.key),
                    cameo_version: e.cameo_version.clone(),
                    node: new_node,
                    last_seen: now,
                };
                self.entries.set(i, updated);
                proof {
                    lemma_key_update(p, i as int, self.view()[i as int].1);
                }
                assert(self.view() =~= heartbeat_spec(old(self).view(), node_id@, opt_bytes(node), now).1);
                true
            },
            None => false,
        }
    }

    pub fn heartbeat(&mut self, node_id: &str, node: Option<Vec<u8>>) -> (r: bool)
        requires
            old(self).wf(),
        ensures
            final(self).wf(),
            exists|now: u64| (r, final(self).view()) == #[trigger] heartbeat_spec(old(self).view(), node_id@, opt_bytes(node), now)
                && now >= old(self).clock_reading() && final(self).clock_reading() == now,
    {
        let now = self.clock.tick();
        let ghost before = self.view();
        let r = self.heartbeat_at(node_id, node, now);
        assert((r, self.view()) == heartbeat_spec(before, node_id@, opt_bytes(node), now)
            && now >= old(self).clock_reading() && self.clock_reading() == now);
        r
    }

    /// Forgets a node (the operator's "remove from farm"); `true` if it was
    /// enrolled.
    pub fn remove(&mut self, node_id: &str) -> (r: bool)
        requires
            old(self).wf(),
        ensures
            final(self).wf(),
            r == key_find(old(self).view(), node_id@) is Some,
            final(self).view() == match key_find(old(self).view(), node_id@) {
                Some(p) => old(self).view().remove(p),
                None => old(self).view(),
            },
    {
        let idc = chars_of(node_id);
        match self.find(&idc) {
            None => false,
            Some(p) => {
                let ghost before = self.view();
                self.entries.remove(p);
                assert(self.view() =~= before.remove(p as int));
                proof {
                    lemma_key_remove(before, p as int);
                }
                true
            },
        }
    }

    /// Where, and with which key, to reach an enrolled node's `/api`.
    pub fn push_target(&self, node_id: &str) -> (r: Option<(String, Option<String>)>)
        requires
            self.wf(),
        ensures
            match key_find(self.view(), node_id@) {
                Some(p) => r matches Some((a, k)) && a@ == self.view()[p].1.address && opt_str(k) == self.view()[p].1.key,
                None => r is None,
            },
    {
        let idc = chars_of(node_id);
        match self.find(&idc) {
            None => None,
            Some(p) => {
                let e = &self.entries[p];
                Some((e.address.clone(), copy_opt_string(&e.key)))
            },
        }
    }

    /// The online nodes at `now` with their self-descriptions, in id order:
    /// the candidates work may be delegated to.
    pub fn online_descriptions_at(&mut self, now: u64) -> (r: Vec<(String, Option<Vec<u8>>)>)
        requires
            old(self).wf(),
        ensures
            final(self).wf(),
            final(self).view() == prune_spec(old(self).view(), now),
            r@.len() == online_spec(final(self).view(), now).len(),
            forall|i: int| 0 <= i < r@.len() ==> (#[trigger] r@[i]).0@ == online_spec(final(self).view(), now)[i].0
                && opt_bytes(r@[i].1) == online_spec(final(self).view(), now)[i].1.node,
            final(self).clock_reading() == old(self).clock_reading(),
    {
        self.prune(now);
        let ghost w = self.view();
        let mut out: Vec<(String, Option<Vec<u8>>)> = Vec::new();
        let mut i: usize = 0;
        assert(online_spec(w.take(0), now) =~= Seq::<FarmEntry>::empty());
        while i < self.entries.len()
            invariant
                i <= self.entries@.len(),
                self.view() == w,
                w.len() == self.entries@.len(),
                out@.len() == online_spec(w.take(i as int), now).len(),
                forall|k: int| 0 <= k < out@.len() ==> (#[trigger] out@[k]).0@ == online_spec(w.take(i as int), now)[k].0
                    && opt_bytes(out@[k].1) == online_spec(w.take(i as int), now)[k].1.node,
            decreases self.entries.len() - i,
        {
            assert(w.take(i + 1).drop_last() =~= w.take(i as int));
            assert(w.take(i + 1).last() == w[i as int]);
            let e = &self.entries[i];
            if now.saturating_sub(e.last_seen) < ONLINE_WINDOW_MS {
                out.push((e.node_id.clone(), copy_opt_bytes(&e.node)));
            }
            i += 1;
        }
        assert(w.take(w.len() as int) =~= w);
        out
    }

    /// [`Farm::online_descriptions_at`] at the time the farm's clock reads.
    pub fn online_descriptions(&mut self) -> (r: Vec<(String, Option<Vec<u8>>)>)
        requires
            old(self).wf(),
        ensures
            final(self).wf(),
            exists|now: u64| #[trigger] online_at(old(self).view(), final(self).view(), r@, now)
                && now >= old(self).clock_reading() && final(self).clock_reading() == now,
    {
        let now = self.clock.tick();
        let ghost before = self.view();
        let r = self.online_descriptions_at(now);
        assert(online_at(before, self.view(), r@, now)
            && now >= old(self).clock_reading() && self.clock_reading() == now);
        r
    }

    /// The farm as the dashboard shows it at `now`, one row per node in id
    /// order, after dropping silent nodes.
    pub fn list_at(&mut self, now: u64) -> (r: Vec<FarmRow>)
        requires
            old(self).wf(),
        ensures
            final(self).wf(),
            final(self).view() == prune_spec(old(self).view(), now),
            r@.len() == final(self).view().len(),
            forall|i: int| 0 <= i < r@.len() ==> {
                let e = #[trigger] final(self).view()[i];
                &&& r@[i].node_id@ == e.0
                &&& r@[i].name@ == (if e.1.name.len() == 0 { e.0 } else { e.1.name })
                &&& r@[i].address@ == e.1.address
                &&& r@[i].cameo_version@ == e.1.cameo_version
                &&& r@[i].online == (age(e.1.last_seen, now) < ONLINE_WINDOW_MS)
                &&& r@[i].age_secs == age(e.1.last_seen, now) / 1000
                &&& opt_bytes(r@[i].node) == e.1.node
            },
            final(self).clock_reading() == old(self).clock_reading(),
    {
        self.prune(now);
        let ghost w = self.view();
        let mut out: Vec<FarmRow> = Vec::new();
        let mut i: usize = 0;
        while i < self.entries.len()
            invariant
                i <= self.entries@.len(),
                self.view() == w,
                w.len() == self.entries@.len(),
                out@.len() == i,
                forall|k: int| 0 <= k < i ==> {
                    let e = #[trigger] w[k];
                    &&& out@[k].node_id@ == e.0
                    &&& out@[k].name@ == (if e.1.name.len() == 0 { e.0 } else { e.1.name })
                    &&& out@[k].address@ == e.1.address
                    &&& out@[k].cameo_version@ == e.1.cameo_version
                    &&& out@[k].online == (age(e.1.last_seen, now) < ONLINE_WINDOW_MS)
                    &&& out@[k].age_secs == age(e.1.last_seen, now) / 1000
                    &&& opt_bytes(out@[k].node) == e.1.node
                },
            decreases self.entries.len() - i,
        {
            let e = &self.entries[i];
            let a = now.saturating_sub(e.last_seen);
            let name = if e.name.as_str().is_empty() { e.node_id.clone() } else { e.name.clone() };
            out.push(FarmRow {
                node_id: e.node_id.clone(),
                name,
                address: e.address.clone(),
                cameo_version: e.cameo_version.clone(),
                online: a < ONLINE_WINDOW_MS,
                age_secs: a / 1000,
                node: copy_opt_bytes(&e.node),
            });
            i += 1;
        }
        out
    }

    pub fn list(&mut self) -> (r: Vec<FarmRow>)
        requires
            old(self).wf(),
        ensures
            final(self).wf(),
            exists|now: u64| final(self).view() == #[trigger] prune_spec(old(self).view(), now),
            r@.len() == final(self).view().len(),
            exists|now: u64| #[trigger] rows_at(old(self).view(), final(self).view(), r@, now)
                && now >= old(self).clock_reading() && final(self).clock_reading() == now,
    {
        let now = self.clock.tick();
        let ghost before = self.view();
        let r = self.list_at(now);
        assert(rows_at(before, self.view(), r@, now)
            && now >= old(self).clock_reading() && self.clock_reading() == now);
        assert(self.view() == prune_spec(before, now));
        r
    }
}

proof fn lemma_prune_fresh(v: Seq<FarmEntry>, now: u64)
    ensures
        forall|i: int| 0 <= i < prune_spec(v, now).len() ==> age((#[trigger] prune_spec(v, now)[i]).1.last_seen, now) < DROP_AFTER_MS,
        (forall|i: int| 0 <= i < v.len() ==> age((#[trigger] v[i]).1.last_seen, now) < DROP_AFTER_MS) ==> prune_spec(v, now) == v,
    decreases v.len(),
{
    if v.len() > 0 {
        let d = v.drop_last();
        lemma_prune_fresh(d, now);
        if forall|i: int| 0 <= i < v.len() ==> age((#[trigger] v[i]).1.last_seen, now) < DROP_AFTER_MS {
            assert forall|i: int| 0 <= i < d.len() implies age((#[trigger] d[i]).1.last_seen, now) < DROP_AFTER_MS by {
                assert(d[i] == v[i]);
            }
            assert(v.last() == v[v.len() - 1]);
            assert(prune_spec(v, now) =~= v);
        }
        let p = prune_spec(d, now);
        if age(v.last().1.last_seen, now) < DROP_AFTER_MS {
            assert forall|i: int| 0 <= i < p.push(v.last()).len() implies age((#[trigger] p.push(v.last())[i]).1.last_seen, now) < DROP_AFTER_MS by {
                if i < p.len() {
                    assert(p.push(v.last())[i] == p[i]);
                }
            }
        }
    }
}

/// Every node a registration leaves in the farm was heard from recently.
proof fn lemma_register_fresh(v: Seq<FarmEntry>, reg: Registration, now: u64)
    requires
        keys_sorted(v),
    ensures
        keys_sorted(register_spec(v, reg, now).1),
        forall|i: int| 0 <= i < register_spec(v, reg, now).1.len() ==> age((#[trigger] register_spec(v, reg, now).1[i]).1.last_seen, now) < DROP_AFTER_MS,
        key_find(register_spec(v, reg, now).1, register_spec(v, reg, now).0) is Some,
{
    let (id, after) = register_spec(v, reg, now);
    let p = prune_spec(v, now);
    lemma_prune_sorted(v, now);
    lemma_prune_fresh(v, now);
    lemma_key_find(p, id);
    match key_find(p, id) {
        Some(i) => {
            lemma_key_update(p, i, after[i].1);
            assert(after == p.update(i, (p[i].0, after[i].1)));
            lemma_key_unique(after, i);
            assert forall|k: int| 0 <= k < after.len() implies age((#[trigger] after[k]).1.last_seen, now) < DROP_AFTER_MS by {
                if k != i {
                    assert(after[k] == p[k]);
                }
            }
        },
        None => {
            let q = if p.len() >= MAX_NODES { p.remove(oldest(p)) } else { p };
            if p.len() >= MAX_NODES {
                lemma_oldest(p);
                lemma_key_remove(p, oldest(p));
            }
            assert forall|k: int| 0 <= k < q.len() implies age((#[trigger] q[k]).1.last_seen, now) < DROP_AFTER_MS by {
                if p.len() >= MAX_NODES {
                    if k < oldest(p) {
                        assert(q[k] == p[k]);
                    } else {
                        assert(q[k] == p[k + 1]);
                    }
                }
            }
            let x = NodeView {
                name: reg.name@,
                address: reg.address@,
                key: opt_str(reg.key),
                cameo_version: reg.cameo_version@,
                node: if too_big(opt_bytes(reg.node)) { None } else { opt_bytes(reg.node) },
                last_seen: now,
            };
            lemma_key_put(q, id, x);
            lemma_key_find(q, id);
            lemma_key_lower_bound(q, id);
            assert forall|k: int| 0 <= k < after.len() implies age((#[trigger] after[k]).1.last_seen, now) < DROP_AFTER_MS by {
                match key_find(q, id) {
                    Some(j) => {
                        if k != j {
                            assert(after[k] == q[k]);
                        }
                    },
                    None => {
                        let at = key_lower_bound(q, id);
                        if k < at {
                            assert(after[k] == q[k]);
                        } else if k > at {
                            assert(after[k] == q[k - 1]);
                        }
                    },
                }
            }
        },
    }
}

/// Law: first credential wins. Registering an id that is already enrolled
/// (and not yet dropped for silence) keeps the node where it was, with the
/// callback address and key it first enrolled with, whatever the new
/// registration says.
pub proof fn law_first_credential_wins(v: Seq<FarmEntry>, reg: Registration, now: u64)
    requires
        keys_sorted(v),
    ensures
        ({
            let (id, after) = register_spec(v, reg, now);
            let before = prune_spec(v, now);
            key_find(before, id) matches Some(i) ==> {
                &&& key_find(after, id) == Some(i)
                &&& after[i].1.address == before[i].1.address
                &&& after[i].1.key == before[i].1.key
            }
        }),
{
    let (id, after) = register_spec(v, reg, now);
    let before = prune_spec(v, now);
    lemma_prune_sorted(v, now);
    if let Some(i) = key_find(before, id) {
        lemma_key_find(before, id);
        lemma_key_update(before, i, after[i].1);
        assert(after == before.update(i, (before[i].0, after[i].1)));
        lemma_key_unique(after, i);
    }
}

/// Law: registration is idempotent. Registering the same node twice at the
/// same moment assigns the same id and leaves the farm as the first
/// registration did: one row, not two.
pub proof fn law_registration_is_idempotent(v: Seq<FarmEntry>, reg: Registration, now: u64)
    requires
        keys_sorted(v),
    ensures
        ({
            let (id1, once) = register_spec(v, reg, now);
            let (id2, twice) = register_spec(once, reg, now);
            id1 == id2 && twice == once
        }),
{
    let (id, once) = register_spec(v, reg, now);
    lemma_register_fresh(v, reg, now);
    lemma_prune_fresh(once, now);
    assert(prune_spec(once, now) == once);
    lemma_key_find(once, id);
    let i = key_find(once, id).unwrap();
    let (_, twice) = register_spec(once, reg, now);
    assert(once[i].1.name == reg.name@ && once[i].1.cameo_version == reg.cameo_version@ && once[i].1.last_seen == now
        && once[i].1.node == (if too_big(opt_bytes(reg.node)) { None } else { opt_bytes(reg.node) })) by {
        let p = prune_spec(v, now);
        lemma_prune_sorted(v, now);
        if p.len() > 0 {
            lemma_oldest(p);
        }
        lemma_key_find(p, id);
        match key_find(p, id) {
            Some(j) => {
                lemma_key_update(p, j, once[j].1);
                assert(once == p.update(j, (p[j].0, once[j].1)));
                lemma_key_unique(once, j);
            },
            None => {
                let q = if p.len() >= MAX_NODES { p.remove(oldest(p)) } else { p };
                if p.len() >= MAX_NODES {
                    lemma_oldest(p);
                    lemma_key_remove(p, oldest(p));
                }
                lemma_key_put(q, id, NodeView {
                    name: reg.name@,
                    address: reg.address@,
                    key: opt_str(reg.key),
                    cameo_version: reg.cameo_version@,
                    node: if too_big(opt_bytes(reg.node)) { None } else { opt_bytes(reg.node) },
                    last_seen: now,
                });
            },
        }
    }
    assert(once[i].0 == id);
    assert(twice =~= once);
}

/// Law: a heartbeat from a node that is not enrolled is refused, and adds
/// nothing.
pub proof fn law_unknown_heartbeat_is_refused(v: Seq<FarmEntry>, id: Seq<char>, node: Option<Seq<u8>>, now: u64)
    requires
        key_find(prune_spec(v, now), id) is None,
    ensures
        heartbeat_spec(v, id, node, now) == (false, prune_spec(v, now)),
{
}

/// Law: once removed, a node has no push target.
pub proof fn law_removed_node_is_gone(v: Seq<FarmEntry>, id: Seq<char>)
    requires
        keys_sorted(v),
    ensures
        key_find(match key_find(v, id) {
            Some(p) => v.remove(p),
            None => v,
        }, id) is None,
{
    lemma_key_find(v, id);
    match key_find(v, id) {
        Some(p) => {
            let r = v.remove(p);
            lemma_key_remove(v, p);
            lemma_key_find(r, id);
            if let Some(q) = key_find(r, id) {
                if q < p {
                    assert(r[q] == v[q]);
                    assert(lex_lt(v[q].0, v[p].0));
                } else {
                    assert(r[q] == v[q + 1]);
                    assert(lex_lt(v[p].0, v[q + 1].0));
                }
                crate::text::lemma_lex_irreflexive(id);
            }
        },
        None => {
            lemma_key_find(v, id);
        },
    }
}

/// The id a device asks to pair under: its node id, else its name, trimmed.
pub open spec fn pair_id_spec(node_id: Seq<char>, name: Seq<char>) -> Result<Seq<char>, Seq<char>> {
    let id = if trim(node_id).len() == 0 { trim(name) } else { trim(node_id) };
    if id.len() == 0 || vstd::utf8::encode_utf8(id).len() > MAX_NODE_ID_LEN {
        Err("pairing requires a node id or name up to 256 bytes"@)
    } else {
        Ok(id)
    }
}

pub fn pair_request_id(node_id: &str, name: &str) -> (r: Result<String, String>)
    ensures
        match (r, pair_id_spec(node_id@, name@)) {
            (Ok(a), Ok(b)) => a@ == b,
            (Err(e), Err(m)) => e@ == m,
            _ => false,
        },
{
    let a = trim_chars(&chars_of(node_id));
    let id = if a.len() == 0 { string_of(&trim_chars(&chars_of(name))) } else { string_of(&a) };
    if id.as_str().is_empty() || id.as_str().as_bytes().len() > MAX_NODE_ID_LEN {
        return Err(String::from_str("pairing requires a node id or name up to 256 bytes"));
    }
    Ok(id)
}

proof fn lemma_online_keeps(v: Seq<FarmEntry>, i: int, now: u64)
    requires
        0 <= i < v.len(),
        age(v[i].1.last_seen, now) < ONLINE_WINDOW_MS,
    ensures
        exists|j: int| 0 <= j < online_spec(v, now).len() && #[trigger] online_spec(v, now)[j] == v[i],
    decreases v.len(),
{
    let o = online_spec(v, now);
    if i == v.len() - 1 {
        assert(o[o.len() - 1] == v[i]);
    } else {
        lemma_online_keeps(v.drop_last(), i, now);
        let d = online_spec(v.drop_last(), now);
        let j = choose|j: int| 0 <= j < d.len() && #[trigger] d[j] == v.drop_last()[i];
        assert(o[j] == d[j]);
    }
}

/// Law of the farm: a heartbeat from a node still enrolled at `now` is
/// accepted, stamps the node as seen at `now`, and so leaves it among the
/// online nodes at `now`; a heartbeat from any other id is refused and
/// changes nothing but the pruning of silent nodes.
pub proof fn law_heartbeat_keeps_a_known_node_online(v: Seq<FarmEntry>, id: Seq<char>, node: Option<Seq<u8>>, now: u64)
    requires
        keys_sorted(v),
    ensures
        ({
            let (accepted, after) = heartbeat_spec(v, id, node, now);
            &&& accepted <==> key_find(prune_spec(v, now), id) is Some
            &&& accepted ==> (key_find(after, id) matches Some(i) && after[i].1.last_seen == now)
            &&& accepted ==> exists|j: int| 0 <= j < online_spec(after, now).len() && (#[trigger] online_spec(after, now)[j]).0 == id
            &&& !accepted ==> after == prune_spec(v, now)
        }),
{
    let p = prune_spec(v, now);
    lemma_prune_sorted(v, now);
    lemma_key_find(p, id);
    let (accepted, after) = heartbeat_spec(v, id, node, now);
    if accepted {
        let i = key_find(p, id).unwrap();
        lemma_key_update(p, i, after[i].1);
        lemma_key_unique(after, i);
        assert(age(now, now) == 0);
        lemma_online_keeps(after, i, now);
        let j = choose|j: int| 0 <= j < online_spec(after, now).len() && #[trigger] online_spec(after, now)[j] == after[i];
        assert(online_spec(after, now)[j].0 == id);
    }
}

} // verus!
