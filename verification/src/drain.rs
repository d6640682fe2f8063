//! Gateway admission and request-lifetime accounting for a planned drain.
//!
//! Requests are admitted under a *generation*. Beginning a drain stops new
//! admissions; once its deadline passes, every generation up to the current
//! one is cancelled, and the connections registered under them are to be shut
//! down. Resuming starts a new generation, so a resumed gateway never revives a
//! cancelled request. A shutdown drain cannot be resumed.
//!
//! Time is a monotonic reading in milliseconds supplied by the caller.
use vstd::prelude::*;

verus! {

/// The drain's state.
pub struct DrainState {
    shutdown: bool,
    active: u64,
    started: Option<u64>,
    deadline_ms: u64,
    generation: u64,
    cancelled_through: Option<u64>,
    next_socket: u64,
    /// Registered client connections: (registration id, generation).
    sockets: Vec<(u64, u64)>,
}

/// The drain's state as values.
pub struct DrainView {
    pub shutdown: bool,
    pub active: u64,
    pub started: Option<u64>,
    pub deadline_ms: u64,
    pub generation: u64,
    pub cancelled_through: Option<u64>,
    pub next_socket: u64,
    pub sockets: Seq<(u64, u64)>,
}

/// Where the gateway stands.
#[derive(Debug, Clone, Copy, PartialEq, Eq, Structural)]
pub enum DrainPhase {
    Accepting,
    Drained,
    DeadlineExceeded,
    Draining,
}

impl DrainPhase {
    /// The name the drain status reports.
    pub fn label(&self) -> (r: &'static str)
        ensures
            r@ == match *self {
                DrainPhase::Accepting => "accepting"@,
                DrainPhase::Drained => "drained"@,
                DrainPhase::DeadlineExceeded => "deadline_exceeded"@,
                DrainPhase::Draining => "draining"@,
            },
    {
        match self {
            DrainPhase::Accepting => "accepting",
            DrainPhase::Drained => "drained",
            DrainPhase::DeadlineExceeded => "deadline_exceeded",
            DrainPhase::Draining => "draining",
        }
    }
}

/// What the drain status reports.
#[derive(Debug, Clone, Copy, PartialEq, Eq, Structural)]
pub struct DrainStatus {
    pub phase: DrainPhase,
    pub active_requests: u64,
    pub accepting: bool,
    pub gateway_idle: bool,
    /// The deadline in whole seconds, while a drain is under way.
    pub deadline_seconds: Option<u64>,
}

/// Why a connection could not be registered.
#[derive(Debug, Clone, Copy, PartialEq, Eq, Structural)]
pub enum RegisterError {
    /// Its generation was already cancelled.
    Cancelled,
    /// Registration ids ran out.
    Exhausted,
}

/// Whether the drain deadline has passed at `now`.
pub open spec fn expired(v: DrainView, now: u64) -> bool {
    v.started matches Some(at) && (now >= at && now - at >= v.deadline_ms)
}

/// The state after noticing the time: an expired drain cancels every
/// generation up to the current one.
pub open spec fn refresh(v: DrainView, now: u64) -> DrainView {
    if expired(v, now) {
        DrainView { cancelled_through: Some(v.generation), ..v }
    } else {
        v
    }
}

pub open spec fn is_cancelled(v: DrainView, generation: u64) -> bool {
    v.cancelled_through matches Some(last) && generation <= last
}

pub open spec fn status_of(v: DrainView, now: u64) -> DrainStatus {
    let phase = match v.started {
        None => DrainPhase::Accepting,
        Some(at) => if v.active == 0 {
            DrainPhase::Drained
        } else if now >= at && now - at >= v.deadline_ms {
            DrainPhase::DeadlineExceeded
        } else {
            DrainPhase::Draining
        },
    };
    DrainStatus {
        phase,
        active_requests: v.active,
        accepting: v.started is None,
        gateway_idle: v.started is Some && v.active == 0,
        deadline_seconds: if v.started is Some {
            Some((v.deadline_ms / 1000) as u64)
        } else {
            None
        },
    }
}

/// The invariant: a shutdown drain has started; nothing beyond the current
/// generation is cancelled; registrations are below the next id.
pub open spec fn drain_wf(v: DrainView) -> bool {
    &&& v.shutdown ==> v.started is Some
    &&& v.cancelled_through matches Some(c) ==> c <= v.generation
    &&& forall|i: int| 0 <= i < v.sockets.len() ==> (#[trigger] v.sockets[i]).0 < v.next_socket
}

pub open spec fn begin_spec(v: DrainView, deadline_ms: u64, now: u64) -> DrainView {
    if v.started is None {
        DrainView { started: Some(now), deadline_ms, ..v }
    } else {
        v
    }
}

pub open spec fn resume_spec(v: DrainView, now: u64) -> DrainView {
    let r = refresh(v, now);
    if r.shutdown || r.started is None {
        r
    } else {
        DrainView {
            started: None,
            generation: if r.generation < u64::MAX {
                (r.generation + 1) as u64
            } else {
                r.generation
            },
            ..r
        }
    }
}

impl DrainState {
    pub closed spec fn view(&self) -> DrainView {
        DrainView {
            shutdown: self.shutdown,
            active: self.active,
            started: self.started,
            deadline_ms: self.deadline_ms,
            generation: self.generation,
            cancelled_through: self.cancelled_through,
            next_socket: self.next_socket,
            sockets: self.sockets@,
        }
    }

    pub fn new() -> (r: DrainState)
        ensures
            drain_wf(r.view()),
            r.view() == (DrainView {
                shutdown: false,
                active: 0,
                started: None,
                deadline_ms: 0,
                generation: 0,
                cancelled_through: None,
                next_socket: 0,
                sockets: Seq::empty(),
            }),
    {
        let r = DrainState {
            shutdown: false,
            active: 0,
            started: None,
            deadline_ms: 0,
            generation: 0,
            cancelled_through: None,
            next_socket: 0,
            sockets: Vec::new(),
        };
        assert(r.view().sockets =~= Seq::<(u64, u64)>::empty());
        r
    }

    fn refresh(&mut self, now: u64)
        requires
            drain_wf(old(self).view()),
        ensures
            final(self).view() == refresh(old(self).view(), now),
            drain_wf(final(self).view()),
    {
        match self.started {
            Some(at) => {
                if now >= at && now - at >= self.deadline_ms {
                    self.cancelled_through = Some(self.generation);
                }
            },
            None => {},
        }
    }

    /// Admits a request, returning the generation it runs under, unless a
    /// drain is under way.
    pub fn enter(&mut self) -> (r: Option<u64>)
        requires
            drain_wf(old(self).view()),
            old(self).view().active < u64::MAX,
        ensures
            drain_wf(final(self).view()),
            old(self).view().started is Some ==> r is None && final(self).view() == old(self).view(),
            old(self).view().started is None ==> r == Some(old(self).view().generation)
                && final(self).view() == (DrainView { active: (old(self).view().active + 1) as u64, ..old(self).view() }),
    {
        if self.started.is_some() {
            return None;
        }
        self.active = self.active + 1;
        Some(self.generation)
    }

    /// A request admitted earlier has finished.
    pub fn release(&mut self)
        requires
            drain_wf(old(self).view()),
            old(self).view().active > 0,
        ensures
            drain_wf(final(self).view()),
            final(self).view() == (DrainView { active: (old(self).view().active - 1) as u64, ..old(self).view() }),
    {
        self.active = self.active - 1;
    }

    /// Begins a drain with a deadline; a drain already under way keeps its
    /// deadline (a retry cannot extend it).
    pub fn begin(&mut self, deadline_ms: u64, now: u64) -> (r: DrainStatus)
        requires
            drain_wf(old(self).view()),
        ensures
            drain_wf(final(self).view()),
            final(self).view() == refresh(begin_spec(old(self).view(), deadline_ms, now), now),
            r == status_of(final(self).view(), now),
    {
        if self.started.is_none() {
            self.started = Some(now);
            self.deadline_ms = deadline_ms;
        }
        self.status(now)
    }

    /// Ends a drain and opens a new generation, unless the drain is a
    /// shutdown.
    pub fn resume(&mut self, now: u64) -> (r: DrainStatus)
        requires
            drain_wf(old(self).view()),
        ensures
            drain_wf(final(self).view()),
            final(self).view() == refresh(resume_spec(old(self).view(), now), now),
            r == status_of(final(self).view(), now),
    {
        self.refresh(now);
        if !self.shutdown && self.started.is_some() {
            self.started = None;
            if self.generation < u64::MAX {
                self.generation = self.generation + 1;
            }
        }
        self.status(now)
    }

    /// Begins a drain that can never be resumed.
    pub fn begin_shutdown(&mut self, deadline_ms: u64, now: u64)
        requires
            drain_wf(old(self).view()),
        ensures
            drain_wf(final(self).view()),
            final(self).view() == refresh(begin_spec(DrainView { shutdown: true, ..old(self).view() }, deadline_ms, now), now),
    {
        self.shutdown = true;
        if self.started.is_none() {
            self.started = Some(now);
            self.deadline_ms = deadline_ms;
        }
        self.refresh(now);
    }

    pub fn shutting_down(&self) -> (r: bool)
        ensures
            r == self.view().shutdown,
    {
        self.shutdown
    }

    pub fn draining(&self) -> (r: bool)
        ensures
            r == self.view().started is Some,
    {
        self.started.is_some()
    }

    /// Whether requests of `generation` are cancelled at `now`.
    pub fn cancelled(&mut self, generation: u64, now: u64) -> (r: bool)
        requires
            drain_wf(old(self).view()),
        ensures
            drain_wf(final(self).view()),
            final(self).view() == refresh(old(self).view(), now),
            r == is_cancelled(final(self).view(), generation),
    {
        self.refresh(now);
        match self.cancelled_through {
            Some(last) => generation <= last,
            None => false,
        }
    }

    /// The registered connections that must be shut down at `now`: those of
    /// cancelled generations.
    pub fn poll(&mut self, now: u64) -> (r: Vec<u64>)
        requires
            drain_wf(old(self).view()),
        ensures
            drain_wf(final(self).view()),
            final(self).view() == refresh(old(self).view(), now),
            r@ == final(self).view().sockets.filter(|s: (u64, u64)| is_cancelled(final(self).view(), s.1)).map_values(|s: (u64, u64)| s.0),
    {
        self.refresh(now);
        let ghost v = self.view();
        let mut out: Vec<u64> = Vec::new();
        let mut i: usize = 0;
        while i < self.sockets.len()
            invariant
                self.view() == v,
                i <= v.sockets.len(),
                out@ == v.sockets.take(i as int).filter(|s: (u64, u64)| is_cancelled(v, s.1)).map_values(|s: (u64, u64)| s.0),
            decreases self.sockets.len() - i,
        {
            let (id, owner) = self.sockets[i];
            proof {
                reveal(Seq::filter);
                assert(v.sockets.take(i + 1).drop_last() =~= v.sockets.take(i as int));
            }
            let cut = match self.cancelled_through {
                Some(last) => owner <= last,
                None => false,
            };
            if cut {
                out.push(id);
            }
            proof {
                let p = |s: (u64, u64)| is_cancelled(v, s.1);
                let f = |s: (u64, u64)| s.0;
                assert(out@ =~= v.sockets.take(i + 1).filter(p).map_values(f));
            }
            i += 1;
        }
        assert(v.sockets.take(v.sockets.len() as int) =~= v.sockets);
        out
    }

    /// Registers a client connection of `generation`, returning its id.
    pub fn register(&mut self, generation: u64, now: u64) -> (r: Result<u64, RegisterError>)
        requires
            drain_wf(old(self).view()),
        ensures
            drain_wf(final(self).view()),
            ({
                let v = refresh(old(self).view(), now);
                if is_cancelled(v, generation) {
                    r == Err::<u64, RegisterError>(RegisterError::Cancelled) && final(self).view() == v
                } else if v.next_socket == u64::MAX {
                    r == Err::<u64, RegisterError>(RegisterError::Exhausted) && final(self).view() == v
                } else {
                    r == Ok::<u64, RegisterError>(v.next_socket) && final(self).view() == (DrainView {
                        next_socket: (v.next_socket + 1) as u64,
                        sockets: v.sockets.push((v.next_socket, generation)),
                        ..v
                    })
                }
            }),
    {
        self.refresh(now);
        let cancelled = match self.cancelled_through {
            Some(last) => generation <= last,
            None => false,
        };
        if cancelled {
            return Err(RegisterError::Cancelled);
        }
        if self.next_socket == u64::MAX {
            return Err(RegisterError::Exhausted);
        }
        let id = self.next_socket;
        self.next_socket = id + 1;
        self.sockets.push((id, generation));
        Ok(id)
    }

    /// Forgets a registered connection.
    pub fn unregister(&mut self, id: u64)
        requires
            drain_wf(old(self).view()),
        ensures
            drain_wf(final(self).view()),
            final(self).view() == (DrainView {
                sockets: old(self).view().sockets.filter(|s: (u64, u64)| s.0 != id),
                ..old(self).view()
            }),
    {
        let ghost v = self.view();
        let mut kept: Vec<(u64, u64)> = Vec::new();
        let mut i: usize = 0;
        while i < self.sockets.len()
            invariant
                self.view() == v,
                i <= v.sockets.len(),
                kept@ == v.sockets.take(i as int).filter(|s: (u64, u64)| s.0 != id),
                drain_wf(v),
                forall|k: int| 0 <= k < kept@.len() ==> (#[trigger] kept@[k]).0 < v.next_socket,
            decreases self.sockets.len() - i,
        {
            proof {
                reveal(Seq::filter);
                assert(v.sockets.take(i + 1).drop_last() =~= v.sockets.take(i as int));
            }
            if self.sockets[i].0 != id {
                assert(v.sockets[i as int].0 < v.next_socket);
                kept.push(self.sockets[i]);
            }
            proof {
                let p = |s: (u64, u64)| s.0 != id;
                assert(kept@ =~= v.sockets.take(i + 1).filter(p));
            }
            i += 1;
        }
        assert(v.sockets.take(v.sockets.len() as int) =~= v.sockets);
        self.sockets = kept;
    }

    /// The status at `now`, after noticing the time.
    pub fn status(&mut self, now: u64) -> (r: DrainStatus)
        requires
            drain_wf(old(self).view()),
        ensures
            drain_wf(final(self).view()),
            final(self).view() == refresh(old(self).view(), now),
            r == status_of(final(self).view(), now),
    {
        self.refresh(now);
        let phase = match self.started {
            None => DrainPhase::Accepting,
            Some(at) => if self.active == 0 {
                DrainPhase::Drained
            } else if now >= at && now - at >= self.deadline_ms {
                DrainPhase::DeadlineExceeded
            } else {
                DrainPhase::Draining
            },
        };
        DrainStatus {
            phase,
            active_requests: self.active,
            accepting: self.started.is_none(),
            gateway_idle: self.started.is_some() && self.active == 0,
            deadline_seconds: if self.started.is_some() {
                Some(self.deadline_ms / 1000)
            } else {
                None
            },
        }
    }
}

/// Law of the drain: resuming never revives a cancelled generation, and the
/// generation it opens is not cancelled (while generations remain).
pub proof fn law_resume_never_revives(v: DrainView, now: u64, g: u64)
    requires
        drain_wf(v),
    ensures
        is_cancelled(refresh(v, now), g) ==> is_cancelled(refresh(resume_spec(v, now), now), g),
        !v.shutdown && v.started is Some && refresh(v, now).generation < u64::MAX ==> {
            let after = refresh(resume_spec(v, now), now);
            &&& after.started is None
            &&& !is_cancelled(after, after.generation)
        },
{
}

/// Law of the drain: once the deadline passed, every generation up to the
/// current one stays cancelled through any later refresh, begin or resume,
/// and a shutdown drain never admits again.
pub proof fn law_cancellation_is_permanent(v: DrainView, now: u64, later: u64, deadline: u64, g: u64)
    requires
        drain_wf(v),
        is_cancelled(v, g),
    ensures
        is_cancelled(refresh(v, later), g),
        is_cancelled(refresh(begin_spec(v, deadline, now), later), g),
        is_cancelled(refresh(resume_spec(v, now), later), g),
        v.shutdown ==> refresh(resume_spec(v, now), later).started is Some,
{
}

} // verus!
