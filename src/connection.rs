//! The life of one accepted connection, from admission to close, and the
//! admission slot it holds.
use vstd::prelude::*;
use crate::admission::{admit_count, admits, release_count, Admission, ClientsCount};
use crate::error::TlsError;

verus! {

/// Where a connection stands. Transitions only move forward; `Closed` is
/// final.
#[derive(Debug, Clone, Copy, PartialEq, Eq, Structural)]
pub enum ConnState {
    Accepted,
    TlsHandshaking,
    Serving,
    Upgraded,
    Draining,
    Closed,
}

/// What happened to a connection.
#[derive(Debug, Clone, Copy, PartialEq, Eq, Structural)]
pub enum ConnEvent {
    /// The serving task started.
    Begin,
    /// The TLS handshake ended: `None` on success, else why it failed.
    Handshake(Option<TlsError>),
    /// Milliseconds spent so far in the current state.
    Elapsed(u64),
    /// The upstream answered `101 Switching Protocols`.
    Upgrade,
    /// The connection ended: served to completion or closed by the peer.
    Finished,
    /// The listener's cancellation token fired.
    Cancel,
}

/// Deadlines of the phases of a connection, in milliseconds.
#[derive(Debug, Clone, Copy, PartialEq, Eq, Structural)]
pub struct ConnLimits {
    pub handshake_timeout_ms: u64,
    /// Hard ceiling on serving: the proxy timeout plus one second.
    pub serve_timeout_ms: u64,
    pub drain_timeout_ms: u64,
}

/// One admitted connection.
#[derive(Debug, Clone, Copy, PartialEq, Eq, Structural)]
pub struct Connection {
    pub state: ConnState,
    pub tls: bool,
    pub limits: ConnLimits,
}

/// The state after event `e` in state `s`.
pub open spec fn next_state(tls: bool, l: ConnLimits, s: ConnState, e: ConnEvent) -> ConnState {
    match s {
        ConnState::Closed => ConnState::Closed,
        _ => match e {
            ConnEvent::Finished => ConnState::Closed,
            ConnEvent::Cancel => ConnState::Draining,
            ConnEvent::Begin => if s == ConnState::Accepted {
                if tls {
                    ConnState::TlsHandshaking
                } else {
                    ConnState::Serving
                }
            } else {
                s
            },
            ConnEvent::Handshake(err) => if s == ConnState::TlsHandshaking {
                if err is None {
                    ConnState::Serving
                } else {
                    ConnState::Closed
                }
            } else {
                s
            },
            ConnEvent::Upgrade => if s == ConnState::Serving {
                ConnState::Upgraded
            } else {
                s
            },
            ConnEvent::Elapsed(ms) => if deadline_passed(l, s, ms) {
                ConnState::Closed
            } else {
                s
            },
        },
    }
}

/// Whether `ms` in state `s` reaches that state's deadline.
pub open spec fn deadline_passed(l: ConnLimits, s: ConnState, ms: u64) -> bool {
    match s {
        ConnState::TlsHandshaking => ms >= l.handshake_timeout_ms,
        ConnState::Serving => ms >= l.serve_timeout_ms,
        ConnState::Upgraded => ms >= l.serve_timeout_ms,
        ConnState::Draining => ms >= l.drain_timeout_ms,
        _ => false,
    }
}

/// The TLS error reported by event `e` in state `s`, if any.
pub open spec fn step_error(l: ConnLimits, s: ConnState, e: ConnEvent) -> Option<TlsError> {
    if s == ConnState::TlsHandshaking {
        match e {
            ConnEvent::Handshake(err) => err,
            ConnEvent::Elapsed(ms) => if ms >= l.handshake_timeout_ms {
                Some(TlsError::HandshakeTimeout)
            } else {
                None
            },
            _ => None,
        }
    } else {
        None
    }
}

/// The admission count after event `e` in state `s`: one release exactly
/// when the connection closes.
pub open spec fn count_after(tls: bool, l: ConnLimits, s: ConnState, e: ConnEvent, c: nat) -> nat {
    if s != ConnState::Closed && next_state(tls, l, s, e) == ConnState::Closed {
        release_count(c)
    } else {
        c
    }
}

/// The state after a sequence of events.
pub open spec fn run_state(tls: bool, l: ConnLimits, s: ConnState, evs: Seq<ConnEvent>) -> ConnState
    decreases evs.len(),
{
    if evs.len() == 0 {
        s
    } else {
        run_state(tls, l, next_state(tls, l, s, evs[0]), evs.drop_first())
    }
}

/// The admission count after a sequence of events.
pub open spec fn run_count(tls: bool, l: ConnLimits, s: ConnState, c: nat, evs: Seq<ConnEvent>) -> nat
    decreases evs.len(),
{
    if evs.len() == 0 {
        c
    } else {
        run_count(
            tls,
            l,
            next_state(tls, l, s, evs[0]),
            count_after(tls, l, s, evs[0], c),
            evs.drop_first(),
        )
    }
}

impl Connection {
    /// Admits a freshly accepted connection: `None` when admission control
    /// rejects it, in which case the socket is closed unread.
    pub fn accept(counter: &mut ClientsCount, max_clients: usize, tls: bool, limits: ConnLimits) -> (r:
        Option<Connection>)
        ensures
            r is Some <==> admits(old(counter)@, max_clients as nat),
            final(counter)@ == admit_count(old(counter)@, max_clients as nat),
            r matches Some(c) ==> c == (Connection { state: ConnState::Accepted, tls, limits }),
    {
        match counter.try_admit(max_clients) {
            Admission::Admitted => Some(Connection { state: ConnState::Accepted, tls, limits }),
            Admission::Rejected => None,
        }
    }

    /// Applies one event; releases the admission slot when, and only when,
    /// the connection reaches `Closed`. Returns the TLS error the event
    /// carries or causes.
    pub fn step(&mut self, counter: &mut ClientsCount, e: ConnEvent) -> (r: Option<TlsError>)
        ensures
            final(self).state == next_state(old(self).tls, old(self).limits, old(self).state, e),
            final(self).tls == old(self).tls,
            final(self).limits == old(self).limits,
            final(counter)@ == count_after(
                old(self).tls,
                old(self).limits,
                old(self).state,
                e,
                old(counter)@,
            ),
            r == step_error(old(self).limits, old(self).state, e),
    {
        let s = self.state;
        if s == ConnState::Closed {
            return None;
        }
        let l = self.limits;
        let mut err: Option<TlsError> = None;
        let next = match e {
            ConnEvent::Finished => ConnState::Closed,
            ConnEvent::Cancel => ConnState::Draining,
            ConnEvent::Begin => {
                if s == ConnState::Accepted {
                    if self.tls {
                        ConnState::TlsHandshaking
                    } else {
                        ConnState::Serving
                    }
                } else {
                    s
                }
            },
            ConnEvent::Handshake(h) => {
                if s == ConnState::TlsHandshaking {
                    err = h;
                    if h.is_none() {
                        ConnState::Serving
                    } else {
                        ConnState::Closed
                    }
                } else {
                    s
                }
            },
            ConnEvent::Upgrade => {
                if s == ConnState::Serving {
                    ConnState::Upgraded
                } else {
                    s
                }
            },
            ConnEvent::Elapsed(ms) => {
                let passed = match s {
                    ConnState::TlsHandshaking => ms >= l.handshake_timeout_ms,
                    ConnState::Serving => ms >= l.serve_timeout_ms,
                    ConnState::Upgraded => ms >= l.serve_timeout_ms,
                    ConnState::Draining => ms >= l.drain_timeout_ms,
                    _ => false,
                };
                if s == ConnState::TlsHandshaking && passed {
                    err = Some(TlsError::HandshakeTimeout);
                }
                if passed {
                    ConnState::Closed
                } else {
                    s
                }
            },
        };
        if next == ConnState::Closed {
            counter.release();
        }
        self.state = next;
        err
    }
}

/// Every admitted connection releases its slot exactly once: after any
/// sequence of events, the count is back to its value before admission if
/// the connection has closed, and still holds the connection's slot if not.
pub proof fn lemma_release_exactly_once(
    tls: bool,
    l: ConnLimits,
    s: ConnState,
    c: nat,
    evs: Seq<ConnEvent>,
)
    requires
        s != ConnState::Closed,
    ensures
        run_state(tls, l, s, evs) == ConnState::Closed ==> run_count(tls, l, s, c + 1, evs) == c,
        run_state(tls, l, s, evs) != ConnState::Closed ==> run_count(tls, l, s, c + 1, evs) == c
            + 1,
    decreases evs.len(),
{
    if evs.len() > 0 {
        let n = next_state(tls, l, s, evs[0]);
        if n == ConnState::Closed {
            lemma_closed_stays(tls, l, c, evs.drop_first());
        } else {
            lemma_release_exactly_once(tls, l, n, c, evs.drop_first());
        }
    }
}

/// A closed connection stays closed and releases nothing more.
pub proof fn lemma_closed_stays(tls: bool, l: ConnLimits, c: nat, evs: Seq<ConnEvent>)
    ensures
        run_state(tls, l, ConnState::Closed, evs) == ConnState::Closed,
        run_count(tls, l, ConnState::Closed, c, evs) == c,
    decreases evs.len(),
{
    if evs.len() > 0 {
        lemma_closed_stays(tls, l, c, evs.drop_first());
    }
}

/// A handshake that reaches its timeout exactly fails with
/// `HandshakeTimeout`, closes the connection and frees its admission slot;
/// one millisecond earlier it is still in progress.
pub proof fn lemma_handshake_timeout_boundary(l: ConnLimits, c: nat)
    ensures
        next_state(true, l, ConnState::TlsHandshaking, ConnEvent::Elapsed(l.handshake_timeout_ms))
            == ConnState::Closed,
        step_error(l, ConnState::TlsHandshaking, ConnEvent::Elapsed(l.handshake_timeout_ms))
            == Some(TlsError::HandshakeTimeout),
        count_after(
            true,
            l,
            ConnState::TlsHandshaking,
            ConnEvent::Elapsed(l.handshake_timeout_ms),
            c + 1,
        ) == c,
        l.handshake_timeout_ms > 0 ==> next_state(
            true,
            l,
            ConnState::TlsHandshaking,
            ConnEvent::Elapsed((l.handshake_timeout_ms - 1) as u64),
        ) == ConnState::TlsHandshaking,
{
}

} // verus!
