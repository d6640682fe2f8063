//! Connection acceptance for the listener: a ceiling on connections served
//! at once, and a lower ceiling per remote address so one host cannot take
//! them all. Loopback peers are exempt from the per-peer ceiling (a reverse
//! proxy funnels every client through it). A slot handed out is given back
//! when its connection ends.
use vstd::prelude::*;
use crate::keyed::{
    key_find, key_get, key_lower_bound, key_put, key_remove, keys_sorted, lemma_key_find, lemma_key_get_put_other,
    lemma_key_lower_bound, lemma_key_put, lemma_key_put_put, lemma_key_put_same,
    lemma_key_remove, lemma_key_remove_put,
};
use crate::text::{chars_eq, chars_lt, chars_of, lex_lt};

verus! {

pub const MAX_CONNECTIONS: usize = 64;
pub const MAX_CONNECTIONS_PER_PEER: usize = 16;

/// The connection limits' state: connections held, and per counted peer how many.
pub struct GateView {
    pub total: nat,
    pub peers: Seq<(Seq<char>, usize)>,
}

/// An accepted connection; `peer` is the address it is counted against.
pub struct ConnectionSlot {
    pub peer: Option<String>,
}

/// The connections held against `peer`.
pub open spec fn held(v: GateView, peer: Seq<char>) -> nat {
    match key_get(v.peers, peer) {
        Some(c) => c as nat,
        None => 0,
    }
}

/// Accepting a connection from `peer` (`loopback` when it is a loopback
/// address): refused at the global ceiling, or at the per-peer ceiling for a
/// counted peer; otherwise the slot and the state after it.
pub open spec fn accept_spec(v: GateView, peer: Option<Seq<char>>, loopback: bool) -> Option<(Option<Seq<char>>, GateView)> {
    if v.total >= MAX_CONNECTIONS {
        None
    } else {
        match peer {
            Some(ip) => if loopback {
                Some((None, GateView { total: v.total + 1, ..v }))
            } else if held(v, ip) >= MAX_CONNECTIONS_PER_PEER {
                None
            } else {
                Some((Some(ip), GateView { total: v.total + 1, peers: key_put(v.peers, ip, (held(v, ip) + 1) as usize) }))
            },
            None => Some((None, GateView { total: v.total + 1, ..v })),
        }
    }
}

/// Giving a slot back: one connection fewer in all, and one fewer for its
/// peer, which is forgotten when it holds none.
pub open spec fn release_spec(v: GateView, peer: Option<Seq<char>>) -> GateView {
    let total = if v.total > 0 { (v.total - 1) as nat } else { 0 };
    match peer {
        Some(ip) => match key_get(v.peers, ip) {
            Some(c) => if c <= 1 {
                GateView { total, peers: key_remove(v.peers, ip) }
            } else {
                GateView { total, peers: key_put(v.peers, ip, (c - 1) as usize) }
            },
            None => GateView { total, ..v },
        },
        None => GateView { total, ..v },
    }
}

/// Every peer holds between one and [`MAX_CONNECTIONS_PER_PEER`] connections.
pub open spec fn counts_in_range(v: Seq<(Seq<char>, usize)>) -> bool {
    forall|i: int| 0 <= i < v.len() ==> 1 <= (#[trigger] v[i]).1 <= MAX_CONNECTIONS_PER_PEER
}

proof fn lemma_put_keeps_counts(v: Seq<(Seq<char>, usize)>, ip: Seq<char>, c: usize)
    requires
        keys_sorted(v),
        counts_in_range(v),
        1 <= c <= MAX_CONNECTIONS_PER_PEER,
    ensures
        keys_sorted(key_put(v, ip, c)),
        counts_in_range(key_put(v, ip, c)),
{
    let w = key_put(v, ip, c);
    lemma_key_put(v, ip, c);
    lemma_key_find(v, ip);
    lemma_key_lower_bound(v, ip);
    assert forall|i: int| 0 <= i < w.len() implies 1 <= (#[trigger] w[i]).1 <= MAX_CONNECTIONS_PER_PEER by {
        match key_find(v, ip) {
            Some(p) => {
                if i != p {
                    assert(w[i] == v[i]);
                }
            },
            None => {
                let at = key_lower_bound(v, ip);
                if i < at {
                    assert(w[i] == v[i]);
                } else if i > at {
                    assert(w[i] == v[i - 1]);
                }
            },
        }
    }
}

pub struct ConnectionGate {
    total: usize,
    peers: Vec<(String, usize)>,
}

pub open spec fn peers_view(v: Seq<(String, usize)>) -> Seq<(Seq<char>, usize)> {
    v.map_values(|p: (String, usize)| (p.0@, p.1))
}

impl ConnectionGate {
    pub closed spec fn view(&self) -> GateView {
        GateView { total: self.total as nat, peers: peers_view(self.peers@) }
    }

    /// Within both ceilings, peers in address order, each holding at least
    /// one connection.
    pub closed spec fn wf(&self) -> bool {
        &&& keys_sorted(self.view().peers)
        &&& self.view().total <= MAX_CONNECTIONS
        &&& counts_in_range(self.view().peers)
    }

    pub fn new() -> (r: ConnectionGate)
        ensures
            r.wf(),
            r.view().total == 0,
            r.view().peers.len() == 0,
    {
        let r = ConnectionGate { total: 0, peers: Vec::new() };
        assert(r.view().peers =~= Seq::<(Seq<char>, usize)>::empty());
        r
    }

    fn locate(&self, k: &[char]) -> (r: usize)
        requires
            keys_sorted(self.view().peers),
        ensures
            r as int == key_lower_bound(self.view().peers, k@),
    {
        let ghost v = self.view().peers;
        proof {
            lemma_key_lower_bound(v, k@);
        }
        let mut i: usize = 0;
        while i < self.peers.len()
            invariant
                v == self.view().peers,
                keys_sorted(v),
                i <= self.peers@.len(),
                v.len() == self.peers@.len(),
                i <= key_lower_bound(v, k@),
                0 <= key_lower_bound(v, k@) <= v.len(),
                forall|j: int| key_lower_bound(v, k@) <= j < v.len() ==> !lex_lt((#[trigger] v[j]).0, k@),
                forall|j: int| 0 <= j < key_lower_bound(v, k@) ==> lex_lt((#[trigger] v[j]).0, k@),
            decreases self.peers.len() - i,
        {
            let name = chars_of(self.peers[i].0.as_str());
            assert(v[i as int].0 == name@);
            if !chars_lt(&name, k) {
                return i;
            }
            i += 1;
        }
        i
    }

    fn find(&self, k: &[char]) -> (r: Option<usize>)
        requires
            keys_sorted(self.view().peers),
        ensures
            r matches Some(p) ==> key_find(self.view().peers, k@) == Some(p as int),
            r is None ==> key_find(self.view().peers, k@) is None,
    {
        let p = self.locate(k);
        if p < self.peers.len() {
            let name = chars_of(self.peers[p].0.as_str());
            if chars_eq(&name, k) {
                return Some(p);
            }
        }
        None
    }

    /// Stores `count` for `ip`, inserting it in order when new.
    fn put(&mut self, ip: String, count: usize)
        requires
            keys_sorted(old(self).view().peers),
        ensures
            keys_sorted(final(self).view().peers),
            final(self).view().peers == key_put(old(self).view().peers, ip@, count),
            final(self).view().total == old(self).view().total,
    {
        let ghost v = self.view().peers;
        let k = chars_of(ip.as_str());
        proof {
            lemma_key_put(v, ip@, count);
            lemma_key_lower_bound(v, ip@);
        }
        match self.find(&k) {
            Some(p) => {
                self.peers.set(p, (ip, count));
                assert(self.view().peers =~= v.update(p as int, (k@, count)));
            },
            None => {
                let at = self.locate(&k);
                self.peers.insert(at, (ip, count));
                assert(self.view().peers =~= v.insert(at as int, (k@, count)));
            },
        }
    }

    /// Accepts a connection from `peer` (see [`accept_spec`]); `loopback` is
    /// whether the address is a loopback one.
    pub fn accept(&mut self, peer: Option<&str>, loopback: bool) -> (r: Option<ConnectionSlot>)
        requires
            old(self).wf(),
        ensures
            final(self).wf(),
            match accept_spec(old(self).view(), match peer { Some(p) => Some(p@), None => None }, loopback) {
                None => r is None && final(self).view() == old(self).view(),
                Some((slot, after)) => r matches Some(s) && final(self).view() == after
                    && match (s.peer, slot) {
                        (Some(a), Some(b)) => a@ == b,
                        (None, None) => true,
                        _ => false,
                    },
            },
    {
        if self.total >= MAX_CONNECTIONS {
            return None;
        }
        match peer {
            Some(ip) => {
                if loopback {
                    self.total = self.total + 1;
                    return Some(ConnectionSlot { peer: None });
                }
                let k = chars_of(ip);
                let ghost v = self.view().peers;
                proof {
                    lemma_key_find(v, ip@);
                }
                let count = match self.find(&k) {
                    Some(p) => self.peers[p].1,
                    None => 0,
                };
                if count >= MAX_CONNECTIONS_PER_PEER {
                    return None;
                }
                self.put(String::from_str(ip), count + 1);
                self.total = self.total + 1;
                proof {
                    lemma_put_keeps_counts(v, ip@, (count + 1) as usize);
                }
                Some(ConnectionSlot { peer: Some(String::from_str(ip)) })
            },
            None => {
                self.total = self.total + 1;
                Some(ConnectionSlot { peer: None })
            },
        }
    }

    /// Gives a slot back (see [`release_spec`]).
    pub fn release(&mut self, slot: ConnectionSlot)
        requires
            old(self).wf(),
        ensures
            final(self).wf(),
            final(self).view() == release_spec(old(self).view(), match slot.peer { Some(p) => Some(p@), None => None }),
    {
        self.total = if self.total > 0 { self.total - 1 } else { 0 };
        match slot.peer {
            Some(ip) => {
                let k = chars_of(ip.as_str());
                let ghost v = self.view().peers;
                proof {
                    lemma_key_find(v, ip@);
                }
                match self.find(&k) {
                    Some(p) => {
                        let c = self.peers[p].1;
                        if c <= 1 {
                            self.peers.remove(p);
                            assert(self.view().peers =~= v.remove(p as int));
                            proof {
                                lemma_key_remove(v, p as int);
                                let w = self.view().peers;
                                assert forall|i: int| 0 <= i < w.len() implies 1 <= (#[trigger] w[i]).1 <= MAX_CONNECTIONS_PER_PEER by {
                                    if i < p {
                                        assert(w[i] == v[i]);
                                    } else {
                                        assert(w[i] == v[i + 1]);
                                    }
                                }
                            }
                        } else {
                            let name = self.peers[p].0.clone();
                            self.peers.set(p, (name, c - 1));
                            assert(self.view().peers =~= v.update(p as int, (ip@, (c - 1) as usize)));
                            proof {
                                crate::keyed::lemma_key_update(v, p as int, (c - 1) as usize);
                                let w = self.view().peers;
                                assert forall|i: int| 0 <= i < w.len() implies 1 <= (#[trigger] w[i]).1 <= MAX_CONNECTIONS_PER_PEER by {
                                    if i != p {
                                        assert(w[i] == v[i]);
                                    }
                                }
                            }
                        }
                    },
                    None => {},
                }
            },
            None => {},
        }
    }
}

/// Law: a connection's release undoes its admission. Accepting a connection
/// and then giving its slot back leaves the limiter as it was.
pub proof fn law_release_undoes_accept(v: GateView, peer: Option<Seq<char>>, loopback: bool)
    requires
        keys_sorted(v.peers),
        forall|i: int| 0 <= i < v.peers.len() ==> 1 <= (#[trigger] v.peers[i]).1,
        accept_spec(v, peer, loopback) is Some,
    ensures
        ({
            let (slot, after) = accept_spec(v, peer, loopback).unwrap();
            release_spec(after, slot) == v
        }),
{
    let (slot, after) = accept_spec(v, peer, loopback).unwrap();
    if let Some(ip) = slot {
        lemma_key_find(v.peers, ip);
        let c = held(v, ip);
        lemma_key_put(v.peers, ip, (c + 1) as usize);
        let p = key_find(after.peers, ip).unwrap();
        assert(key_get(after.peers, ip) == Some((c + 1) as usize));
        match key_find(v.peers, ip) {
            Some(q) => {
                assert(c >= 1);
                lemma_key_put_put(v.peers, ip, (c + 1) as usize, c as usize);
                lemma_key_put_same(v.peers, ip, c as usize);
            },
            None => {
                assert(c == 0);
                lemma_key_remove_put(v.peers, ip, 1usize);
            },
        }
    }
}

/// Law: the limiter never holds more than [`MAX_CONNECTIONS`] connections, nor
/// more than [`MAX_CONNECTIONS_PER_PEER`] for any counted peer.
pub proof fn law_ceilings_hold(v: GateView, peer: Option<Seq<char>>, loopback: bool, other: Seq<char>)
    requires
        v.total <= MAX_CONNECTIONS,
        keys_sorted(v.peers),
        held(v, other) <= MAX_CONNECTIONS_PER_PEER,
        accept_spec(v, peer, loopback) is Some,
    ensures
        accept_spec(v, peer, loopback).unwrap().1.total <= MAX_CONNECTIONS,
        held(accept_spec(v, peer, loopback).unwrap().1, other) <= MAX_CONNECTIONS_PER_PEER,
{
    let (slot, after) = accept_spec(v, peer, loopback).unwrap();
    if let Some(ip) = slot {
        if other != ip {
            lemma_key_get_put_other(v.peers, ip, (held(v, ip) + 1) as usize, other);
        } else {
            lemma_key_put(v.peers, ip, (held(v, ip) + 1) as usize);
        }
    }
}

} // verus!
