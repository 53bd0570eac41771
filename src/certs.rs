//! Certificate snapshots and the per-handshake certificate selection.
use vstd::prelude::*;
use crate::error::TlsError;
use crate::names::{
    any_match, best_match, is_best_match, lemma_best_match_exists, lemma_best_match_unique,
    match_score, name_matches, pattern_matches, pattern_score,
};

verus! {

/// Certificate material for one server name.
#[derive(Debug, Clone)]
pub struct CertEntry {
    /// Normalised server name or wildcard pattern (`*.a.example`).
    pub server_name: Vec<u8>,
    pub chain: Vec<u8>,
    pub private_key: Vec<u8>,
    /// When present, clients must present a certificate signed by this set.
    pub client_ca: Option<Vec<u8>>,
    pub ocsp_staple: Option<Vec<u8>>,
}

/// An immutable set of certificates, with an optional default entry used
/// when no name matches or the client sends no server name.
#[derive(Debug, Clone)]
pub struct CertSnapshot {
    pub entries: Vec<CertEntry>,
    pub default: Option<usize>,
}

/// The server-name patterns of a snapshot, in order.
pub open spec fn cert_names(entries: Seq<CertEntry>) -> Seq<Seq<u8>> {
    entries.map_values(|e: CertEntry| e.server_name@)
}

/// The default index, when set, names an entry.
pub open spec fn snapshot_wf(s: CertSnapshot) -> bool {
    s.default matches Some(d) ==> d < s.entries@.len()
}

/// The store's lookup for an optional normalised server name: exact or most
/// specific wildcard, else the default, else an error (`NoSni` when the
/// client sent no name).
pub open spec fn cert_lookup(s: CertSnapshot, sni: Option<Seq<u8>>) -> Result<usize, TlsError> {
    match sni {
        Some(name) => if any_match(cert_names(s.entries@), name) {
            Ok(best_match(cert_names(s.entries@), name) as usize)
        } else {
            match s.default {
                Some(d) => Ok(d),
                None => Err(TlsError::NoCertificate),
            }
        },
        None => match s.default {
            Some(d) => Ok(d),
            None => Err(TlsError::NoSni),
        },
    }
}

/// Outcome of a handshake: timed out once `elapsed` reaches `timeout`; else
/// the looked-up entry, unless it asks for a client certificate that did
/// not verify.
pub open spec fn handshake_outcome(
    s: CertSnapshot,
    sni: Option<Seq<u8>>,
    verified: bool,
    elapsed: nat,
    timeout: nat,
) -> Result<usize, TlsError> {
    if elapsed >= timeout {
        Err(TlsError::HandshakeTimeout)
    } else {
        match cert_lookup(s, sni) {
            Ok(i) => if s.entries@[i as int].client_ca is Some && !verified {
                Err(TlsError::ClientCertRejected)
            } else {
                Ok(i)
            },
            Err(e) => Err(e),
        }
    }
}

/// Optional byte slice as an optional sequence.
pub open spec fn opt_view(o: Option<&[u8]>) -> Option<Seq<u8>> {
    match o {
        Some(s) => Some(s@),
        None => None,
    }
}

impl CertSnapshot {
    /// Index of the most specific entry matching `name`, or `None`.
    pub fn find(&self, name: &[u8]) -> (r: Option<usize>)
        ensures
            r matches Some(i) ==> is_best_match(cert_names(self.entries@), name@, i as int),
            r is None <==> !any_match(cert_names(self.entries@), name@),
    {
        let ghost names = cert_names(self.entries@);
        let mut best: Option<usize> = None;
        let mut best_score: usize = 0;
        let mut i: usize = 0;
        while i < self.entries.len()
            invariant
                names == cert_names(self.entries@),
                i <= self.entries@.len(),
                best matches Some(b) ==> (b < i && is_best_match(
                    names.subrange(0, i as int),
                    name@,
                    b as int,
                ) && best_score == match_score(names[b as int])),
                best is None ==> !any_match(names.subrange(0, i as int), name@),
            decreases self.entries.len() - i,
        {
            let p = &self.entries[i].server_name;
            assert(names[i as int] == p@);
            if pattern_matches(p.as_slice(), name) {
                let s = pattern_score(p.as_slice());
                match best {
                    Some(b) => {
                        if s > best_score {
                            best = Some(i);
                            best_score = s;
                        }
                    },
                    None => {
                        best = Some(i);
                        best_score = s;
                    },
                }
            }
            proof {
                let sub = names.subrange(0, i + 1);
                let old_sub = names.subrange(0, i as int);
                assert forall|j: int| 0 <= j < i + 1 implies sub[j] == names[j] by {}
                assert forall|j: int| 0 <= j < i implies old_sub[j] == names[j] by {}
                if best is None {
                    assert forall|j: int| 0 <= j < sub.len() implies !name_matches(
                        #[trigger] sub[j],
                        name@,
                    ) by {
                        if j < i {
                            assert(old_sub[j] == sub[j]);
                        }
                    }
                }
            }
            i = i + 1;
        }
        assert(names.subrange(0, self.entries@.len() as int) =~= names);
        best
    }

    /// Selects the certificate for a handshake whose client sent `sni`.
    pub fn lookup(&self, sni: Option<&[u8]>) -> (r: Result<usize, TlsError>)
        ensures
            r == cert_lookup(*self, opt_view(sni)),
    {
        match sni {
            Some(name) => match self.find(name) {
                Some(i) => {
                    proof {
                        lemma_best_match_unique(cert_names(self.entries@), name@, i as int);
                    }
                    Ok(i)
                },
                None => match self.default {
                    Some(d) => Ok(d),
                    None => Err(TlsError::NoCertificate),
                },
            },
            None => match self.default {
                Some(d) => Ok(d),
                None => Err(TlsError::NoSni),
            },
        }
    }

    /// Decides a handshake from what the TLS layer reports: the time it has
    /// taken so far, the client's server name and, when the selected entry
    /// asks for one, whether the client's certificate verified. A handshake
    /// that has taken `timeout_ms` or more has timed out.
    pub fn decide_handshake(
        &self,
        sni: Option<&[u8]>,
        client_cert_verified: bool,
        elapsed_ms: u64,
        timeout_ms: u64,
    ) -> (r: Result<usize, TlsError>)
        requires
            snapshot_wf(*self),
        ensures
            r == handshake_outcome(
                *self,
                opt_view(sni),
                client_cert_verified,
                elapsed_ms as nat,
                timeout_ms as nat,
            ),
    {
        if elapsed_ms >= timeout_ms {
            return Err(TlsError::HandshakeTimeout);
        }
        match self.lookup(sni) {
            Ok(i) => {
                proof {
                    if sni is Some && any_match(cert_names(self.entries@), opt_view(sni)->Some_0) {
                        lemma_best_match_exists(cert_names(self.entries@), opt_view(sni)->Some_0);
                    }
                }
                if self.entries[i].client_ca.is_some() && !client_cert_verified {
                    Err(TlsError::ClientCertRejected)
                } else {
                    Ok(i)
                }
            },
            Err(e) => Err(e),
        }
    }
}

/// A handshake that completes with server name `name` serves the entry the
/// store's lookup selects for `name`: a matching pattern than which no
/// matching pattern is more specific, or the default when none matches.
pub proof fn lemma_served_cert_matches_sni(
    s: CertSnapshot,
    name: Seq<u8>,
    verified: bool,
    elapsed: nat,
    timeout: nat,
)
    requires
        snapshot_wf(s),
        s.entries@.len() <= usize::MAX,
        handshake_outcome(s, Some(name), verified, elapsed, timeout) is Ok,
    ensures
        ({
            let i = handshake_outcome(s, Some(name), verified, elapsed, timeout)->Ok_0 as int;
            &&& Ok::<usize, TlsError>(i as usize) == cert_lookup(s, Some(name))
            &&& any_match(cert_names(s.entries@), name) ==> {
                &&& name_matches(s.entries@[i].server_name@, name)
                &&& forall|j: int|
                    0 <= j < s.entries@.len() && name_matches(s.entries@[j].server_name@, name)
                        ==> match_score(s.entries@[j].server_name@) <= match_score(
                        s.entries@[i].server_name@,
                    )
            }
            &&& !any_match(cert_names(s.entries@), name) ==> s.default == Some(i as usize)
        }),
{
    let names = cert_names(s.entries@);
    if any_match(names, name) {
        lemma_best_match_exists(names, name);
        let i = best_match(names, name);
        assert(names[i] == s.entries@[i].server_name@);
        assert forall|j: int|
            0 <= j < s.entries@.len() && name_matches(
                s.entries@[j].server_name@,
                name,
            ) implies match_score(s.entries@[j].server_name@) <= match_score(
            s.entries@[i].server_name@,
        ) by {
            assert(names[j] == s.entries@[j].server_name@);
        }
    }
}

/// The published certificate snapshot. Publishing is last-writer-wins; a
/// snapshot that failed to build is not published and the previous one
/// stays. Handshakes that took the previous snapshot keep it.
#[derive(Debug)]
pub struct CertStore {
    current: CertSnapshot,
    publishes: u64,
}

impl CertStore {
    /// A store holding `initial`.
    pub fn new(initial: CertSnapshot) -> (r: CertStore)
        ensures
            r.snapshot() == initial,
            r.publish_count() == 0,
    {
        CertStore { current: initial, publishes: 0 }
    }

    /// The snapshot now published.
    pub closed spec fn snapshot(&self) -> CertSnapshot {
        self.current
    }

    /// How many snapshots have been published since the store was made.
    pub closed spec fn publish_count(&self) -> u64 {
        self.publishes
    }

    /// The snapshot new handshakes use.
    pub fn current(&self) -> (r: &CertSnapshot)
        ensures
            *r == self.snapshot(),
    {
        &self.current
    }

    /// Publishes `candidate` when the reloader built one; `None` (the new
    /// material did not parse) keeps the current snapshot. Returns whether
    /// a snapshot was published.
    pub fn publish(&mut self, candidate: Option<CertSnapshot>) -> (r: bool)
        ensures
            r == candidate is Some,
            candidate matches Some(c) ==> final(self).snapshot() == c,
            candidate is None ==> final(self).snapshot() == old(self).snapshot(),
            r ==> final(self).publish_count() == crate::routing::next_counter(old(self).publish_count()),
            !r ==> final(self).publish_count() == old(self).publish_count(),
    {
        match candidate {
            Some(c) => {
                self.current = c;
                self.publishes = if self.publishes == u64::MAX {
                    0
                } else {
                    self.publishes + 1
                };
                true
            },
            None => false,
        }
    }
}

} // verus!
