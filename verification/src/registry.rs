//! Client registry: per-server state map plus a queue of expiry deadlines.
//!
//! The registry tracks every connected server under its packed socket
//! address, drives each server's I/O state machine, and expires servers
//! that have not been heard from within the connection timeout. Time
//! enters as a plain millisecond count on a monotonic clock; the caller
//! performs the sends and application callbacks that the returned effects
//! ask for.
//!
//! Invariant: the deadline queue's address set always equals the state
//! map's address set.

use vstd::prelude::*;
use std::collections::HashMap;
use super::machine::{transition, Effect, IOEvent, ServerIOState};
use super::message::{server, Error};
use super::pq::{
    pq_entries, pq_items, pq_new, pq_peek, pq_pop, pq_push, pq_remove, DeadlineQueue,
};

verus! {

broadcast use vstd::std_specs::hash::group_hash_axioms;

/// Duration after which a server is considered disconnected if no valid
/// message arrives, in milliseconds. Each handled message refreshes the
/// deadline.
pub const CONN_TIMEOUT_MS: u64 = 600;

/// Delay between successive polls of the application's start and stop
/// requests, in milliseconds.
pub const REQUEST_POLL_PERIOD_MS: u64 = 10;

/// Stack buffer size for encoding outgoing protocol messages, in bytes.
pub const ENCODE_BUF_LEN: usize = 2000;

/// Receive scratch size, in bytes: larger than any datagram this protocol
/// sends, for future-proofing.
pub const RECV_BUF_LEN: usize = 5000;

/// Client registry managing connections to multiple servers.
pub struct GenericClient {
    /// Next expiry deadline per server, stored inverted
    /// (`u64::MAX - deadline`) so the earliest deadline pops first.
    deadlines: DeadlineQueue,
    /// Per-server I/O stage.
    servers: HashMap<u64, ServerIOState>,
}

impl GenericClient {
    /// The I/O stage of each connected server, by address.
    pub closed spec fn servers_map(self) -> Map<u64, ServerIOState> {
        self.servers@
    }

    /// Whether the server at `addr` is connected.
    pub open spec fn contains_spec(self, addr: u64) -> bool {
        self.servers_map().dom().contains(addr)
    }

    /// The stored (inverted) priority of each connected server.
    pub closed spec fn priorities(self) -> Map<u64, u64> {
        pq_entries(self.deadlines)
    }

    /// The absolute deadline, in milliseconds, by which the server at
    /// `addr` must be heard from.
    pub open spec fn deadline_spec(self, addr: u64) -> int {
        u64::MAX - self.priorities()[addr]
    }

    /// Well-formedness: the deadline queue holds exactly the connected
    /// addresses. This is the registry's standing invariant; every
    /// operation preserves it.
    pub closed spec fn wf(self) -> bool {
        &&& pq_entries(self.deadlines).dom() =~= self.servers@.dom()
        &&& self.servers@.dom().finite()
    }

    /// Law: the deadline queue's address set equals the state map's
    /// address set, in every well-formed registry.
    pub proof fn lemma_registry_domains(self)
        requires
            self.wf(),
        ensures
            self.priorities().dom() == self.servers_map().dom(),
    {
    }

    /// Creates a registry with no connected servers.
    pub fn new() -> (r: Self)
        ensures
            r.wf(),
            r.servers_map() =~= Map::empty(),
    {
        let r = Self { deadlines: pq_new(), servers: HashMap::new() };
        proof {
            assert(r.servers@.dom() =~= Set::<u64>::empty());
            assert(pq_entries(r.deadlines).dom() =~= Set::<u64>::empty());
        }
        r
    }

    /// The number of connected servers.
    pub fn len(&self) -> (n: usize)
        ensures
            n == self.servers_map().dom().len(),
    {
        self.servers.len()
    }

    /// Whether the server at `addr` is connected.
    pub fn contains_server(&self, addr: u64) -> (r: bool)
        ensures
            r == self.contains_spec(addr),
    {
        self.servers.contains_key(&addr)
    }

    /// The I/O stage of the server at `addr`, if connected.
    pub fn state_of(&self, addr: u64) -> (r: Option<ServerIOState>)
        ensures
            r == (if self.contains_spec(addr) {
                Some(self.servers_map()[addr])
            } else {
                Option::<ServerIOState>::None
            }),
    {
        match self.servers.get(&addr) {
            Some(s) => Some(*s),
            None => None,
        }
    }

    /// The addresses of all connected servers, each exactly once, in
    /// arbitrary order.
    pub fn peers(&self) -> (r: Vec<u64>)
        requires
            self.wf(),
        ensures
            r@.to_set() == self.servers_map().dom(),
            r@.no_duplicates(),
    {
        pq_items(&self.deadlines)
    }

    /// Moves the deadline of the connected server at `addr` to
    /// `now_ms + CONN_TIMEOUT_MS`.
    fn refresh_deadline(&mut self, addr: u64, now_ms: u64)
        requires
            old(self).wf(),
            old(self).contains_spec(addr),
            now_ms + CONN_TIMEOUT_MS <= u64::MAX,
        ensures
            final(self).wf(),
            final(self).servers_map() == old(self).servers_map(),
            final(self).priorities() == old(self).priorities().insert(
                addr,
                (u64::MAX - (now_ms + CONN_TIMEOUT_MS)) as u64,
            ),
            final(self).deadline_spec(addr) == now_ms + CONN_TIMEOUT_MS,
    {
        let p = u64::MAX - (now_ms + CONN_TIMEOUT_MS);
        pq_push(&mut self.deadlines, addr, p);
        proof {
            assert(pq_entries(self.deadlines).dom() =~= self.servers@.dom());
        }
    }

    /// Handles an inbound connection offer from `addr`, with the
    /// application's accept decision.
    ///
    /// An offer from an already connected server only refreshes its
    /// deadline and draws no reply. From a new server, the application's
    /// decision is returned as the reply to send; on acceptance the
    /// server is registered as `Inactive` with a fresh deadline.
    pub fn on_connect_offer(&mut self, addr: u64, now_ms: u64, accept: Result<(), Error>) -> (reply:
        Option<Result<(), Error>>)
        requires
            old(self).wf(),
            now_ms + CONN_TIMEOUT_MS <= u64::MAX,
        ensures
            final(self).wf(),
            reply == (if old(self).contains_spec(addr) {
                Option::<Result<(), Error>>::None
            } else {
                Some(accept)
            }),
            final(self).servers_map() == (if !old(self).contains_spec(addr) && accept is Ok {
                old(self).servers_map().insert(addr, ServerIOState::Inactive)
            } else {
                old(self).servers_map()
            }),
            final(self).contains_spec(addr) ==> final(self).deadline_spec(addr) == now_ms
                + CONN_TIMEOUT_MS,
            final(self).priorities() == (if final(self).contains_spec(addr) {
                old(self).priorities().insert(addr, (u64::MAX - (now_ms + CONN_TIMEOUT_MS)) as u64)
            } else {
                old(self).priorities()
            }),
    {
        if self.servers.contains_key(&addr) {
            self.refresh_deadline(addr, now_ms);
            None
        } else {
            if accept.is_ok() {
                self.servers.insert(addr, ServerIOState::Inactive);
                let p = u64::MAX - (now_ms + CONN_TIMEOUT_MS);
                pq_push(&mut self.deadlines, addr, p);
                proof {
                    assert(pq_entries(self.deadlines).dom() =~= self.servers@.dom());
                }
            }
            Some(accept)
        }
    }

    /// Handles a control message from the server at `addr`: drives the
    /// peer's state machine and refreshes its deadline. A message from an
    /// unknown address is ignored.
    pub fn on_connected_control(&mut self, addr: u64, now_ms: u64, ctrl: server::Control) -> (eff:
        Effect)
        requires
            old(self).wf(),
            now_ms + CONN_TIMEOUT_MS <= u64::MAX,
        ensures
            final(self).wf(),
            !old(self).contains_spec(addr) ==> eff == Effect::Quiet && *final(self) == *old(self),
            old(self).contains_spec(addr) ==> {
                let e = match ctrl {
                    server::Control::IOStateChangeResult(s) => IOEvent::Control(s),
                    server::Control::Heartbeat => IOEvent::Heartbeat,
                };
                let step = super::machine::spec_transition(old(self).servers_map()[addr], e);
                &&& eff == step.1
                &&& final(self).servers_map() == old(self).servers_map().insert(addr, step.0)
                &&& final(self).deadline_spec(addr) == now_ms + CONN_TIMEOUT_MS
                &&& final(self).priorities() == old(self).priorities().insert(
                    addr,
                    (u64::MAX - (now_ms + CONN_TIMEOUT_MS)) as u64,
                )
            },
    {
        let stage = match self.servers.get(&addr) {
            Some(s) => *s,
            None => {
                return Effect::Quiet;
            },
        };
        let e = super::machine::control_event(ctrl);
        let (next, eff) = transition(stage, e);
        self.servers.insert(addr, next);
        proof {
            assert(self.servers@.dom() =~= old(self).servers@.dom());
            assert(pq_entries(self.deadlines).dom() =~= self.servers@.dom());
        }
        self.refresh_deadline(addr, now_ms);
        eff
    }

    /// Handles an inbound audio message from the server at `addr`:
    /// refreshes the deadline and says whether the payload is forwarded
    /// to the application (only an `Active` server's audio is). Audio
    /// from an unknown address is ignored.
    pub fn on_connected_audio(&mut self, addr: u64, now_ms: u64) -> (eff: Effect)
        requires
            old(self).wf(),
            now_ms + CONN_TIMEOUT_MS <= u64::MAX,
        ensures
            final(self).wf(),
            !old(self).contains_spec(addr) ==> eff == Effect::Quiet && *final(self) == *old(self),
            old(self).contains_spec(addr) ==> {
                &&& eff == (if old(self).servers_map()[addr] == ServerIOState::Active {
                    Effect::ForwardAudio
                } else {
                    Effect::DropAudio
                })
                &&& final(self).servers_map() == old(self).servers_map()
                &&& final(self).deadline_spec(addr) == now_ms + CONN_TIMEOUT_MS
                &&& final(self).priorities() == old(self).priorities().insert(
                    addr,
                    (u64::MAX - (now_ms + CONN_TIMEOUT_MS)) as u64,
                )
            },
    {
        let stage = match self.servers.get(&addr) {
            Some(s) => *s,
            None => {
                return Effect::Quiet;
            },
        };
        let (next, eff) = transition(stage, IOEvent::Audio);
        proof {
            assert(super::machine::spec_transition(stage, IOEvent::Audio).0 == stage);
        }
        self.refresh_deadline(addr, now_ms);
        eff
    }

    /// Handles a disconnect from the server at `addr`: the server leaves
    /// the map and the deadline queue.
    pub fn on_disconnect(&mut self, addr: u64)
        requires
            old(self).wf(),
        ensures
            final(self).wf(),
            final(self).servers_map() == old(self).servers_map().remove(addr),
            final(self).priorities() == old(self).priorities().remove(addr),
    {
        self.servers.remove(&addr);
        pq_remove(&mut self.deadlines, addr);
        proof {
            assert(pq_entries(self.deadlines).dom() =~= self.servers@.dom());
        }
    }

    /// Polls the application's wishes for the server at `addr`: an
    /// `Inactive` server moves to `PendingStart` when a start is wanted,
    /// an `Active` server to `PendingStop` when a stop is wanted, and the
    /// returned effect says which request to send. Deadlines are not
    /// touched: polling is not hearing from the server.
    pub fn poll_peer(&mut self, addr: u64, want_start: bool, want_stop: bool) -> (eff: Effect)
        requires
            old(self).wf(),
        ensures
            final(self).wf(),
            final(self).priorities() == old(self).priorities(),
            !old(self).contains_spec(addr) ==> eff == Effect::Quiet && *final(self) == *old(self),
            old(self).contains_spec(addr) ==> {
                let stage = old(self).servers_map()[addr];
                let e = if stage == ServerIOState::Inactive {
                    IOEvent::PollStart(want_start)
                } else {
                    IOEvent::PollStop(want_stop)
                };
                let step = super::machine::spec_transition(stage, e);
                &&& eff == step.1
                &&& final(self).servers_map() == old(self).servers_map().insert(addr, step.0)
            },
    {
        let stage = match self.servers.get(&addr) {
            Some(s) => *s,
            None => {
                return Effect::Quiet;
            },
        };
        let e = match stage {
            ServerIOState::Inactive => IOEvent::PollStart(want_start),
            _ => IOEvent::PollStop(want_stop),
        };
        let (next, eff) = transition(stage, e);
        self.servers.insert(addr, next);
        proof {
            assert(self.servers@.dom() =~= old(self).servers@.dom());
            assert(pq_entries(self.deadlines).dom() =~= self.servers@.dom());
        }
        eff
    }

    /// Expires every server whose deadline has passed: each such server
    /// leaves the map and the queue, and its address is returned so the
    /// application can observe the drop. Every server that remains has a
    /// deadline strictly after `now_ms`, unchanged.
    pub fn on_timeout(&mut self, now_ms: u64) -> (expired: Vec<u64>)
        requires
            old(self).wf(),
        ensures
            final(self).wf(),
            expired@.no_duplicates(),
            forall|i: int|
                0 <= i < expired@.len() ==> old(self).contains_spec(#[trigger] expired@[i]) && old(
                    self,
                ).deadline_spec(expired@[i]) <= now_ms,
            final(self).servers_map() == old(self).servers_map().remove_keys(expired@.to_set()),
            final(self).priorities() == old(self).priorities().remove_keys(expired@.to_set()),
            forall|a: u64|
                final(self).contains_spec(a) ==> #[trigger] final(self).deadline_spec(a) > now_ms
                    && final(self).deadline_spec(a) == old(self).deadline_spec(a),
    {
        let ghost s0 = old(self).servers@;
        let ghost d0 = pq_entries(old(self).deadlines);
        let mut expired: Vec<u64> = Vec::new();
        proof {
            assert(s0.remove_keys(expired@.to_set()) =~= s0);
            assert(d0.remove_keys(expired@.to_set()) =~= d0);
        }
        loop
            invariant
                self.wf(),
                expired@.no_duplicates(),
                forall|i: int|
                    0 <= i < expired@.len() ==> s0.dom().contains(#[trigger] expired@[i]) && u64::MAX
                        - d0[expired@[i]] <= now_ms,
                self.servers@ == s0.remove_keys(expired@.to_set()),
                pq_entries(self.deadlines) == d0.remove_keys(expired@.to_set()),
            ensures
                forall|a: u64|
                    #[trigger] pq_entries(self.deadlines).dom().contains(a) ==> u64::MAX
                        - pq_entries(self.deadlines)[a] > now_ms,
            decreases pq_entries(self.deadlines).dom().len(),
        {
            let popped = pq_pop(&mut self.deadlines);
            match popped {
                None => {
                    proof {
                        assert(pq_entries(self.deadlines).dom() =~= self.servers@.dom());
                    }
                    break;
                },
                Some((addr, p)) => {
                    let deadline = u64::MAX - p;
                    if deadline <= now_ms {
                        self.servers.remove(&addr);
                        let ghost old_seq = expired@;
                        let ghost old_set = expired@.to_set();
                        expired.push(addr);
                        proof {
                            assert(expired@.to_set() =~= old_set.insert(addr)) by {
                                assert forall|x: u64| #[trigger] expired@.contains(x)
                                    implies old_set.insert(addr).contains(x) by {
                                    let i = choose|i: int|
                                        0 <= i < expired@.len() && expired@[i] == x;
                                    if i < old_seq.len() {
                                        assert(old_seq[i] == x);
                                        assert(old_seq.contains(x));
                                    }
                                }
                                assert forall|x: u64| #[trigger] old_set.insert(addr).contains(x)
                                    implies expired@.contains(x) by {
                                    if x == addr {
                                        assert(expired@[expired@.len() - 1] == x);
                                    } else {
                                        let i = choose|i: int|
                                            0 <= i < old_seq.len() && old_seq[i] == x;
                                        assert(expired@[i] == x);
                                    }
                                }
                            }
                            assert(!old_seq.contains(addr)) by {
                                if old_seq.contains(addr) {
                                    assert(old_set.contains(addr));
                                    assert(d0.remove_keys(old_set).dom().contains(addr));
                                }
                            }
                            assert(expired@.no_duplicates()) by {
                                assert forall|i: int, j: int|
                                    0 <= i < expired@.len() && 0 <= j < expired@.len() && i != j
                                    implies expired@[i] != expired@[j] by {
                                    if i < old_seq.len() && j < old_seq.len() {
                                    } else if i < old_seq.len() {
                                        assert(old_seq[i] == expired@[i]);
                                        assert(old_seq.contains(old_seq[i]) && expired@[j]
                                            == addr);
                                    } else if j < old_seq.len() {
                                        assert(old_seq[j] == expired@[j]);
                                        assert(old_seq.contains(old_seq[j]) && expired@[i]
                                            == addr);
                                    }
                                }
                            }
                            assert(self.servers@ =~= s0.remove_keys(expired@.to_set()));
                            assert(pq_entries(self.deadlines) =~= d0.remove_keys(
                                expired@.to_set(),
                            ));
                            assert(pq_entries(self.deadlines).dom() =~= self.servers@.dom());
                        }
                    } else {
                        pq_push(&mut self.deadlines, addr, p);
                        proof {
                            assert(pq_entries(self.deadlines) =~= d0.remove_keys(
                                expired@.to_set(),
                            ));
                            assert(pq_entries(self.deadlines).dom() =~= self.servers@.dom());
                            assert forall|a: u64| #[trigger] pq_entries(
                                self.deadlines,
                            ).dom().contains(a) implies u64::MAX - pq_entries(self.deadlines)[a]
                                > now_ms by {
                                assert(pq_entries(self.deadlines)[a] <= p);
                            }
                        }
                        break;
                    }
                },
            }
        }
        proof {
            assert forall|a: u64| final(self).contains_spec(a) implies #[trigger] final(self).deadline_spec(a) > now_ms && final(self).deadline_spec(a) == old(self).deadline_spec(a) by {
                assert(pq_entries(self.deadlines).dom().contains(a));
            }
        }
        expired
    }

    /// The receive timeout to arm next, in milliseconds: the least of the
    /// time until some earliest deadline, the request poll period, and
    /// the connection timeout; zero when a deadline has already passed.
    /// With no connected server there is no deadline to wake for.
    pub fn next_recv_timeout(&self, now_ms: u64) -> (r: Option<u64>)
        requires
            self.wf(),
        ensures
            r is None <==> self.servers_map().dom() =~= Set::<u64>::empty(),
            r matches Some(t) ==> exists|k: u64|
                {
                    &&& #[trigger] self.contains_spec(k)
                    &&& forall|k2: u64|
                        #[trigger] self.contains_spec(k2) ==> self.deadline_spec(k2)
                            >= self.deadline_spec(k)
                    &&& t == spec_min3(
                        if self.deadline_spec(k) > now_ms {
                            self.deadline_spec(k) - now_ms
                        } else {
                            0
                        },
                        REQUEST_POLL_PERIOD_MS as int,
                        CONN_TIMEOUT_MS as int,
                    )
                },
    {
        match pq_peek(&self.deadlines) {
            None => {
                proof {
                    assert(self.servers_map().dom() =~= Set::<u64>::empty());
                }
                None
            },
            Some((k, p)) => {
                let deadline = u64::MAX - p;
                let until: u64 = if deadline > now_ms {
                    deadline - now_ms
                } else {
                    0
                };
                let t1: u64 = if until < REQUEST_POLL_PERIOD_MS {
                    until
                } else {
                    REQUEST_POLL_PERIOD_MS
                };
                let t: u64 = if t1 < CONN_TIMEOUT_MS {
                    t1
                } else {
                    CONN_TIMEOUT_MS
                };
                proof {
                    assert(self.contains_spec(k));
                    assert forall|k2: u64| #[trigger] self.contains_spec(k2) implies self.deadline_spec(
                        k2,
                    ) >= self.deadline_spec(k) by {
                        assert(pq_entries(self.deadlines).dom().contains(k2));
                    }
                }
                Some(t)
            },
        }
    }
}

/// The least of three quantities.
pub open spec fn spec_min3(a: int, b: int, c: int) -> int {
    if a <= b && a <= c {
        a
    } else if b <= c {
        b
    } else {
        c
    }
}

} // verus!
