//! Admission control: a counter of concurrently served clients with a ceiling.
use vstd::prelude::*;

verus! {

/// The outcome of an admission attempt.
#[derive(Debug, Clone, Copy, PartialEq, Eq, Structural)]
pub enum Admission {
    Admitted,
    Rejected,
}

/// Number of clients currently being served.
#[derive(Debug, Default)]
pub struct ClientsCount {
    count: usize,
}

/// Value of the counter after an admission attempt from `count` under `max`.
pub open spec fn admit_count(count: nat, max: nat) -> nat {
    if count + 1 <= max { count + 1 } else { count }
}

/// Whether an attempt from `count` under `max` is admitted.
pub open spec fn admits(count: nat, max: nat) -> bool {
    count + 1 <= max
}

/// Value of the counter after a release from `count`: never below zero.
pub open spec fn release_count(count: nat) -> nat {
    if count > 0 { (count - 1) as nat } else { 0 }
}

impl View for ClientsCount {
    type V = nat;

    closed spec fn view(&self) -> nat {
        self.count as nat
    }
}

impl ClientsCount {
    /// A counter at zero.
    pub fn new() -> (r: Self)
        ensures
            r@ == 0,
    {
        ClientsCount { count: 0 }
    }

    /// The number of clients now counted.
    pub fn current(&self) -> (r: usize)
        ensures
            r == self@,
    {
        self.count
    }

    /// Adds one client; returns the value before the addition.
    pub fn increment(&mut self) -> (r: usize)
        requires
            old(self)@ < usize::MAX,
        ensures
            r == old(self)@,
            final(self)@ == old(self)@ + 1,
    {
        let prev = self.count;
        self.count = prev + 1;
        prev
    }

    /// Removes one client unless the counter is at zero; returns the value
    /// before the removal.
    pub fn decrement(&mut self) -> (r: usize)
        ensures
            r == old(self)@,
            final(self)@ == release_count(old(self)@),
    {
        let prev = self.count;
        if prev > 0 {
            self.count = prev - 1;
        }
        prev
    }

    /// Admits one more client when the count after admission stays within
    /// `max_clients`; otherwise leaves the count as it was and rejects.
    pub fn try_admit(&mut self, max_clients: usize) -> (r: Admission)
        ensures
            (r == Admission::Admitted) == admits(old(self)@, max_clients as nat),
            final(self)@ == admit_count(old(self)@, max_clients as nat),
    {
        if self.count < max_clients {
            self.count = self.count + 1;
            Admission::Admitted
        } else {
            Admission::Rejected
        }
    }

    /// Releases one admitted client; the count never goes below zero.
    pub fn release(&mut self)
        ensures
            final(self)@ == release_count(old(self)@),
    {
        if self.count > 0 {
            self.count = self.count - 1;
        }
    }
}

/// An admission followed by a release brings the count back to where it
/// was; a rejected admission leaves it untouched.
pub proof fn lemma_admit_release_restores(count: nat, max: nat)
    ensures
        admits(count, max) ==> release_count(admit_count(count, max)) == count,
        !admits(count, max) ==> admit_count(count, max) == count,
{
}

/// With exactly `max` clients in flight the next one is rejected; with
/// `max - 1` in flight it is admitted.
pub proof fn lemma_admission_boundary(max: nat)
    requires
        max > 0,
    ensures
        !admits(max, max),
        admit_count(max, max) == max,
        admits((max - 1) as nat, max),
        admit_count((max - 1) as nat, max) == max,
{
}

/// Admission never takes the count above the ceiling once it is within it.
pub proof fn lemma_admission_within_ceiling(count: nat, max: nat)
    requires
        count <= max,
    ensures
        admit_count(count, max) <= max,
        release_count(count) <= max,
{
}

} // verus!
