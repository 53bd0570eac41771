//! One listener: its binding, its deadlines and the admission of the
//! connections it accepts against the process-wide settings.
use vstd::prelude::*;
use crate::admission::{admit_count, admits};
use crate::connection::{ConnLimits, ConnState, Connection};
use crate::globals::{Globals, ListenAddr};

verus! {

/// Milliseconds added to the proxy timeout to bound a whole connection.
pub const SERVE_GRACE_MS: u64 = 1000;

/// A listener.
#[derive(Debug, Clone, Copy, PartialEq, Eq, Structural)]
pub struct Proxy {
    pub listening_on: ListenAddr,
    /// Whether connections on this listener start with a TLS handshake.
    pub tls_enabled: bool,
    pub handshake_timeout_ms: u64,
    pub drain_timeout_ms: u64,
}

/// `a + b`, or the largest `u64` when that overflows.
pub open spec fn sat_add(a: u64, b: u64) -> u64 {
    if a + b > u64::MAX {
        u64::MAX
    } else {
        (a + b) as u64
    }
}

impl Proxy {
    /// The deadlines of this listener's connections under `globals`.
    pub open spec fn limits_under(&self, globals: Globals) -> ConnLimits {
        ConnLimits {
            handshake_timeout_ms: self.handshake_timeout_ms,
            serve_timeout_ms: sat_add(globals.timeout_ms, SERVE_GRACE_MS),
            drain_timeout_ms: self.drain_timeout_ms,
        }
    }

    /// The deadlines of this listener's connections; serving is bounded by
    /// the proxy timeout plus one second.
    pub fn connection_limits(&self, globals: &Globals) -> (r: ConnLimits)
        ensures
            r == self.limits_under(*globals),
    {
        ConnLimits {
            handshake_timeout_ms: self.handshake_timeout_ms,
            serve_timeout_ms: globals.timeout_ms.saturating_add(SERVE_GRACE_MS),
            drain_timeout_ms: self.drain_timeout_ms,
        }
    }

    /// Admission of a freshly accepted stream: a connection to serve, or
    /// `None` when `max_clients` are already in flight, in which case the
    /// stream is closed without being read.
    pub fn client_serve(&self, globals: &mut Globals) -> (r: Option<Connection>)
        ensures
            r is Some <==> admits(old(globals).clients_count@, old(globals).max_clients as nat),
            final(globals).clients_count@ == admit_count(
                old(globals).clients_count@,
                old(globals).max_clients as nat,
            ),
            final(globals).max_clients == old(globals).max_clients,
            final(globals).timeout_ms == old(globals).timeout_ms,
            r matches Some(c) ==> c == (Connection {
                state: ConnState::Accepted,
                tls: self.tls_enabled,
                limits: self.limits_under(*old(globals)),
            }),
    {
        let limits = self.connection_limits(globals);
        let max = globals.max_clients;
        Connection::accept(&mut globals.clients_count, max, self.tls_enabled, limits)
    }
}

} // verus!
