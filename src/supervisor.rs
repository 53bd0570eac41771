//! Supervision decisions: how service outcomes combine, when the root
//! cancellation fires, hot-restart handover and configuration reloads.
use vstd::prelude::*;
use crate::globals::Globals;
use crate::routing::{host_lookup_ok, is_longest_prefix, route_fails, rule_prefixes, BackendTable};

verus! {

/// The restart generation beyond which a handover is refused by default.
pub const DEFAULT_MAX_RESTART_GENERATION: u32 = 4;

/// The services a supervisor runs.
#[derive(Debug, Clone, Copy, PartialEq, Eq, Structural)]
pub enum ServiceKind {
    Proxy,
    CertReloader,
    Acme,
}

/// How a service task ended.
#[derive(Debug, Clone, Copy, PartialEq, Eq, Structural)]
pub enum Outcome {
    Completed,
    Failed,
}

/// Why a restart handover failed.
#[derive(Debug, Clone, Copy, PartialEq, Eq, Structural)]
pub enum RestartError {
    /// The generation is beyond the configured maximum.
    TooManyRestarts,
    /// The handover did not carry exactly four bytes, or the next
    /// generation does not fit.
    BadHandover,
}

/// What a configuration reload did.
#[derive(Debug, Clone, Copy, PartialEq, Eq, Structural)]
pub enum ReloadOutcome {
    /// The new configuration replaced the old one.
    Swapped,
    /// The new configuration was invalid; the old one stays.
    KeptOld,
}

/// `i` is the first failed outcome.
pub open spec fn is_first_failure(outs: Seq<Outcome>, i: int) -> bool {
    0 <= i < outs.len() && outs[i] == Outcome::Failed && forall|j: int|
        0 <= j < i ==> outs[j] == Outcome::Completed
}

/// Whether a service ending with `out` cancels the root token: the proxy
/// when it fails; the certificate reloader and the ACME manager whenever
/// they end, as they are meant to run until cancelled.
pub open spec fn cancels_root_spec(kind: ServiceKind, out: Outcome) -> bool {
    match kind {
        ServiceKind::Proxy => out == Outcome::Failed,
        _ => true,
    }
}

/// Whether a handover of `generation` is allowed under `max`.
pub open spec fn handover_allowed(generation: nat, max: nat) -> bool {
    generation <= max
}

/// Big-endian bytes of a 32-bit value.
pub open spec fn be_bytes(v: u32) -> Seq<u8> {
    seq![
        (v / 0x1000000) as u8,
        ((v / 0x10000) % 0x100) as u8,
        ((v / 0x100) % 0x100) as u8,
        (v % 0x100) as u8,
    ]
}

/// The 32-bit value of four big-endian bytes.
pub open spec fn from_be(b: Seq<u8>) -> nat {
    b[0] as nat * 0x1000000 + b[1] as nat * 0x10000 + b[2] as nat * 0x100 + b[3] as nat
}

/// The combined result of the services, checked in the order given (proxy,
/// certificate reloader, ACME manager): the first failure, if any.
pub fn first_failure(outs: &Vec<Outcome>) -> (r: Option<usize>)
    ensures
        r matches Some(i) ==> is_first_failure(outs@, i as int),
        r is None <==> forall|j: int| 0 <= j < outs@.len() ==> outs@[j] == Outcome::Completed,
{
    let mut i: usize = 0;
    while i < outs.len()
        invariant
            i <= outs@.len(),
            forall|j: int| 0 <= j < i ==> outs@[j] == Outcome::Completed,
        decreases outs.len() - i,
    {
        if outs[i] == Outcome::Failed {
            return Some(i);
        }
        i = i + 1;
    }
    None
}

/// Whether a service that ended with `out` cancels the root token.
pub fn cancels_root(kind: ServiceKind, out: Outcome) -> (r: bool)
    ensures
        r == cancels_root_spec(kind, out),
{
    match kind {
        ServiceKind::Proxy => out == Outcome::Failed,
        _ => true,
    }
}

/// The bytes an old process hands its successor: the restart generation,
/// big-endian, unless it is beyond `max_generation`.
pub fn handover_bytes(generation: u32, max_generation: u32) -> (r: Result<Vec<u8>, RestartError>)
    ensures
        handover_allowed(generation as nat, max_generation as nat) ==> (r matches Ok(b) && b@
            == be_bytes(generation)),
        !handover_allowed(generation as nat, max_generation as nat) ==> r == Err::<
            Vec<u8>,
            RestartError,
        >(RestartError::TooManyRestarts),
{
    if generation > max_generation {
        return Err(RestartError::TooManyRestarts);
    }
    let b: Vec<u8> = vec![
        (generation / 0x1000000) as u8,
        ((generation / 0x10000) % 0x100) as u8,
        ((generation / 0x100) % 0x100) as u8,
        (generation % 0x100) as u8,
    ];
    assert(b@ =~= be_bytes(generation));
    Ok(b)
}

/// The generation of a successor process from the bytes its predecessor
/// handed over: one more than the value they carry.
pub fn received_generation(bytes: &[u8]) -> (r: Result<u32, RestartError>)
    ensures
        bytes@.len() == 4 && from_be(bytes@) < u32::MAX ==> r == Ok::<u32, RestartError>(
            (from_be(bytes@) + 1) as u32,
        ),
        !(bytes@.len() == 4 && from_be(bytes@) < u32::MAX) ==> r == Err::<u32, RestartError>(
            RestartError::BadHandover,
        ),
{
    if bytes.len() != 4 {
        return Err(RestartError::BadHandover);
    }
    let v: u64 = bytes[0] as u64 * 0x1000000 + bytes[1] as u64 * 0x10000 + bytes[2] as u64 * 0x100
        + bytes[3] as u64;
    if v >= 0xffff_ffff {
        return Err(RestartError::BadHandover);
    }
    Ok((v + 1) as u32)
}

/// The generation read back from the handed-over bytes is the one written.
pub proof fn lemma_handover_round_trip(g: u32)
    ensures
        from_be(be_bytes(g)) == g,
{
    let b = be_bytes(g);
    assert(b[0] as nat == g / 0x1000000);
    assert(b[1] as nat == (g / 0x10000) % 0x100);
    assert(b[2] as nat == (g / 0x100) % 0x100);
    assert(b[3] as nat == g % 0x100);
    assert(from_be(b) == g) by (nonlinear_arith)
        requires
            b[0] as nat == g / 0x1000000,
            b[1] as nat == (g / 0x10000) % 0x100,
            b[2] as nat == (g / 0x100) % 0x100,
            b[3] as nat == g % 0x100,
            from_be(b) == b[0] as nat * 0x1000000 + b[1] as nat * 0x10000 + b[2] as nat * 0x100
                + b[3] as nat,
    ;
}

/// Under the default maximum, a handover of generation 4 goes ahead and one
/// of generation 5 is refused.
pub proof fn lemma_restart_cap()
    ensures
        handover_allowed(4, DEFAULT_MAX_RESTART_GENERATION as nat),
        !handover_allowed(5, DEFAULT_MAX_RESTART_GENERATION as nat),
{
}

/// One generation of configuration: the process settings and the routing
/// table.
pub struct Generation {
    pub globals: Globals,
    pub table: BackendTable,
}

impl Generation {
    /// Applies a reload: a validated new configuration replaces this one;
    /// `None` (the new configuration failed to load) keeps this one. Either
    /// way the caller then cancels the old services so that listeners
    /// re-bind.
    pub fn reload(&mut self, candidate: Option<Generation>) -> (r: ReloadOutcome)
        ensures
            candidate matches Some(c) ==> *final(self) == c && r == ReloadOutcome::Swapped,
            candidate is None ==> *final(self) == *old(self) && r == ReloadOutcome::KeptOld,
    {
        match candidate {
            Some(c) => {
                *self = c;
                ReloadOutcome::Swapped
            },
            None => ReloadOutcome::KeptOld,
        }
    }
}

/// Reloading a configuration equal to the current one changes no routing
/// decision: every host lookup, rule choice and routing failure is the same
/// before and after.
pub proof fn lemma_same_reload_unobservable(before: Generation, after: Generation, name: Seq<u8>, path: Seq<u8>)
    requires
        after == before,
    ensures
        forall|i: int| host_lookup_ok(after.table.hosts@, name, i) == host_lookup_ok(
            before.table.hosts@,
            name,
            i,
        ),
        forall|i: int, k: int|
            0 <= i < before.table.hosts@.len() ==> is_longest_prefix(
                rule_prefixes(after.table.hosts@[i].rules@),
                path,
                k,
            ) == is_longest_prefix(rule_prefixes(before.table.hosts@[i].rules@), path, k),
        route_fails(after.table.hosts@, name, path) == route_fails(before.table.hosts@, name, path),
        after.globals == before.globals,
{
}

} // verus!
