//! The backend registry: virtual hosts, path rules and upstream groups, and
//! the lookups that route a request to one upstream.
use vstd::prelude::*;
use crate::error::RequestError;
use crate::names::{
    any_match, is_best_match, match_score, name_matches, pattern_matches, pattern_score,
};

verus! {

/// Scheme used to reach an upstream.
#[derive(Debug, Clone, Copy, PartialEq, Eq, Structural)]
pub enum Scheme {
    Http,
    Https,
}

/// One origin server.
#[derive(Debug, Clone)]
pub struct Upstream {
    pub scheme: Scheme,
    pub host: Vec<u8>,
    pub port: u16,
    /// Value sent as `Host` instead of the client's.
    pub host_override: Option<Vec<u8>>,
    /// Server name offered to the upstream's TLS instead of its host.
    pub sni_override: Option<Vec<u8>>,
}

/// How a group picks one of its upstreams.
#[derive(Debug, Clone, Copy, PartialEq, Eq, Structural)]
pub enum LoadBalance {
    /// Always the first upstream.
    Primary,
    RoundRobin,
    Random,
    StickyCookie,
}

/// An ordered, non-empty list of upstreams with a balancing policy.
#[derive(Debug, Clone)]
pub struct UpstreamGroup {
    pub upstreams: Vec<Upstream>,
    pub policy: LoadBalance,
}

/// A path prefix and the group it routes to.
#[derive(Debug, Clone)]
pub struct PathRule {
    pub prefix: Vec<u8>,
    /// Replaces `prefix` in the forwarded request target.
    pub replace_prefix: Option<Vec<u8>>,
    pub group: UpstreamGroup,
}

/// A routing entity selected by the request's host.
#[derive(Debug, Clone)]
pub struct VirtualHost {
    /// Normalised name or wildcard pattern (`*.b.example`).
    pub server_name: Vec<u8>,
    pub is_default: bool,
    pub rules: Vec<PathRule>,
    pub upstream_timeout_ms: Option<u32>,
    pub tls_required: bool,
}

/// The whole routing table of one configuration generation.
#[derive(Debug, Clone)]
pub struct BackendTable {
    pub hosts: Vec<VirtualHost>,
}

/// The configured host patterns, in declaration order.
pub open spec fn host_names(hosts: Seq<VirtualHost>) -> Seq<Seq<u8>> {
    hosts.map_values(|h: VirtualHost| h.server_name@)
}

/// The path prefixes of a host's rules, in declaration order.
pub open spec fn rule_prefixes(rules: Seq<PathRule>) -> Seq<Seq<u8>> {
    rules.map_values(|r: PathRule| r.prefix@)
}

/// `i` is the first host declared as default.
pub open spec fn is_first_default(hosts: Seq<VirtualHost>, i: int) -> bool {
    0 <= i < hosts.len() && hosts[i].is_default && forall|j: int|
        0 <= j < i ==> !(#[trigger] hosts[j]).is_default
}

/// Some host is declared as default.
pub open spec fn has_default(hosts: Seq<VirtualHost>) -> bool {
    exists|j: int| 0 <= j < hosts.len() && (#[trigger] hosts[j]).is_default
}

/// `prefix` is a prefix of `path`.
pub open spec fn prefix_matches(prefix: Seq<u8>, path: Seq<u8>) -> bool {
    prefix.len() <= path.len() && path.subrange(0, prefix.len() as int) == prefix
}

/// `i` is the longest prefix of `prefixes` matching `path`, the first
/// declared among those of equal length.
pub open spec fn is_longest_prefix(prefixes: Seq<Seq<u8>>, path: Seq<u8>, i: int) -> bool {
    &&& 0 <= i < prefixes.len()
    &&& prefix_matches(prefixes[i], path)
    &&& forall|j: int|
        0 <= j < prefixes.len() && prefix_matches(prefixes[j], path) ==> prefixes[j].len()
            <= prefixes[i].len()
    &&& forall|j: int|
        0 <= j < i && prefix_matches(prefixes[j], path) ==> prefixes[j].len() < prefixes[i].len()
}

/// Some prefix of `prefixes` matches `path`.
pub open spec fn any_prefix(prefixes: Seq<Seq<u8>>, path: Seq<u8>) -> bool {
    exists|j: int| 0 <= j < prefixes.len() && prefix_matches(#[trigger] prefixes[j], path)
}

/// Outcome of the virtual-host lookup for a normalised `name`: the most
/// specific matching host, else the first default host, else `NotFound`.
pub open spec fn host_lookup_ok(hosts: Seq<VirtualHost>, name: Seq<u8>, i: int) -> bool {
    if any_match(host_names(hosts), name) {
        is_best_match(host_names(hosts), name, i)
    } else {
        is_first_default(hosts, i)
    }
}

/// Whether `prefix` is a prefix of `path`.
pub fn is_prefix(prefix: &[u8], path: &[u8]) -> (r: bool)
    ensures
        r == prefix_matches(prefix@, path@),
{
    if prefix.len() > path.len() {
        return false;
    }
    let mut i: usize = 0;
    while i < prefix.len()
        invariant
            prefix@.len() <= path@.len(),
            i <= prefix@.len(),
            forall|j: int| 0 <= j < i ==> prefix@[j] == path@[j],
        decreases prefix.len() - i,
    {
        if prefix[i] != path[i] {
            assert(path@.subrange(0, prefix@.len() as int)[i as int] != prefix@[i as int]);
            return false;
        }
        i = i + 1;
    }
    assert(path@.subrange(0, prefix@.len() as int) =~= prefix@);
    true
}

impl BackendTable {
    /// Finds the virtual host for the normalised host `name`: the most
    /// specific matching pattern (ties to the first declared), else the first
    /// default host, else `NotFound`.
    pub fn find_host(&self, name: &[u8]) -> (r: Result<usize, RequestError>)
        ensures
            r matches Ok(i) ==> host_lookup_ok(self.hosts@, name@, i as int),
            r is Err <==> (!any_match(host_names(self.hosts@), name@) && !has_default(
                self.hosts@,
            )),
            r is Err ==> r == Err::<usize, RequestError>(RequestError::NotFound),
    {
        let ghost names = host_names(self.hosts@);
        let mut best: Option<usize> = None;
        let mut best_score: usize = 0;
        let mut default: Option<usize> = None;
        let mut i: usize = 0;
        while i < self.hosts.len()
            invariant
                names == host_names(self.hosts@),
                i <= self.hosts@.len(),
                best matches Some(b) ==> (b < i && is_best_match(
                    names.subrange(0, i as int),
                    name@,
                    b as int,
                ) && best_score == match_score(names[b as int])),
                best is None ==> !any_match(names.subrange(0, i as int), name@),
                default matches Some(d) ==> (d < i && is_first_default(self.hosts@, d as int)),
                default is None ==> forall|j: int| 0 <= j < i ==> !(#[trigger] self.hosts@[j]).is_default,
            decreases self.hosts.len() - i,
        {
            let h = &self.hosts[i];
            let m = pattern_matches(h.server_name.as_slice(), name);
            assert(names[i as int] == h.server_name@);
            if m {
                let s = pattern_score(h.server_name.as_slice());
                match best {
                    Some(b) => {
                        if s > best_score {
                            best = Some(i);
                            best_score = s;
                        }
                    },
                    None => {
                        best = Some(i);
                        best_score = s;
                    },
                }
            }
            if default.is_none() && h.is_default {
                default = Some(i);
            }
            proof {
                let sub = names.subrange(0, i + 1);
                let old_sub = names.subrange(0, i as int);
                assert forall|j: int| 0 <= j < i + 1 implies sub[j] == names[j] by {}
                assert forall|j: int| 0 <= j < i implies old_sub[j] == names[j] by {}
                if best is None {
                    assert forall|j: int| 0 <= j < sub.len() implies !name_matches(
                        #[trigger] sub[j],
                        name@,
                    ) by {
                        if j < i {
                            assert(old_sub[j] == sub[j]);
                        }
                    }
                }
            }
            i = i + 1;
        }
        assert(names.subrange(0, self.hosts@.len() as int) =~= names);
        match best {
            Some(b) => Ok(b),
            None => match default {
                Some(d) => Ok(d),
                None => Err(RequestError::NotFound),
            },
        }
    }
}

/// No route exists: no host for the name, or no rule of that host for the
/// path.
pub open spec fn route_fails(hosts: Seq<VirtualHost>, name: Seq<u8>, path: Seq<u8>) -> bool {
    (!any_match(host_names(hosts), name) && !has_default(hosts)) || (forall|i: int|
        host_lookup_ok(hosts, name, i) ==> !any_prefix(rule_prefixes(hosts[i].rules@), path))
}

/// A routing decision: indices of the host, its rule and the upstream.
#[derive(Debug, Clone, Copy, PartialEq, Eq, Structural)]
pub struct Route {
    pub host: usize,
    pub rule: usize,
    pub upstream: usize,
}

/// Every upstream group of the table is non-empty.
pub open spec fn table_wf(hosts: Seq<VirtualHost>) -> bool {
    forall|h: int, k: int|
        0 <= h < hosts.len() && 0 <= k < hosts[h].rules@.len() ==> (
        #[trigger] hosts[h].rules@[k]).group.upstreams@.len() > 0
}

/// Index picked by a balancing policy among `n` upstreams, given the group's
/// round-robin counter, a random draw and the hash of a sticky cookie.
pub open spec fn pick_index(policy: LoadBalance, n: nat, rr: nat, draw: nat, sticky: Option<nat>) -> nat
    recommends
        n > 0,
{
    match policy {
        LoadBalance::Primary => 0,
        LoadBalance::RoundRobin => rr % n,
        LoadBalance::Random => draw % n,
        LoadBalance::StickyCookie => match sticky {
            Some(h) => h % n,
            None => rr % n,
        },
    }
}

/// Whether a pick with this policy advances the round-robin counter.
pub open spec fn advances_counter(policy: LoadBalance, sticky: Option<nat>) -> bool {
    policy == LoadBalance::RoundRobin || (policy == LoadBalance::StickyCookie && sticky is None)
}

/// The round-robin counter after one step.
pub open spec fn next_counter(rr: u64) -> u64 {
    if rr == u64::MAX {
        0
    } else {
        (rr + 1) as u64
    }
}

/// Converts an optional sticky-cookie hash to a mathematical value.
pub open spec fn sticky_nat(sticky: Option<u64>) -> Option<nat> {
    match sticky {
        Some(h) => Some(h as nat),
        None => None,
    }
}

impl VirtualHost {
    /// Finds the rule with the longest prefix of `path`, the first declared
    /// among equally long ones; `NotFound` when no prefix matches.
    pub fn find_rule(&self, path: &[u8]) -> (r: Result<usize, RequestError>)
        ensures
            r matches Ok(i) ==> is_longest_prefix(rule_prefixes(self.rules@), path@, i as int),
            r is Err <==> !any_prefix(rule_prefixes(self.rules@), path@),
            r is Err ==> r == Err::<usize, RequestError>(RequestError::NotFound),
    {
        let ghost ps = rule_prefixes(self.rules@);
        let mut best: Option<usize> = None;
        let mut best_len: usize = 0;
        let mut i: usize = 0;
        while i < self.rules.len()
            invariant
                ps == rule_prefixes(self.rules@),
                i <= self.rules@.len(),
                best matches Some(b) ==> (b < i && is_longest_prefix(
                    ps.subrange(0, i as int),
                    path@,
                    b as int,
                ) && best_len == ps[b as int].len()),
                best is None ==> !any_prefix(ps.subrange(0, i as int), path@),
            decreases self.rules.len() - i,
        {
            let p = &self.rules[i].prefix;
            assert(ps[i as int] == p@);
            if is_prefix(p.as_slice(), path) {
                match best {
                    Some(b) => {
                        if p.len() > best_len {
                            best = Some(i);
                            best_len = p.len();
                        }
                    },
                    None => {
                        best = Some(i);
                        best_len = p.len();
                    },
                }
            }
            proof {
                let sub = ps.subrange(0, i + 1);
                let old_sub = ps.subrange(0, i as int);
                assert forall|j: int| 0 <= j < i + 1 implies sub[j] == ps[j] by {}
                assert forall|j: int| 0 <= j < i implies old_sub[j] == ps[j] by {}
                if best is None {
                    assert forall|j: int| 0 <= j < sub.len() implies !prefix_matches(
                        #[trigger] sub[j],
                        path@,
                    ) by {
                        if j < i {
                            assert(old_sub[j] == sub[j]);
                        }
                    }
                }
            }
            i = i + 1;
        }
        assert(ps.subrange(0, self.rules@.len() as int) =~= ps);
        match best {
            Some(b) => Ok(b),
            None => Err(RequestError::NotFound),
        }
    }
}

impl UpstreamGroup {
    /// Picks one upstream by the group's policy. `rr` is the group's
    /// round-robin counter, `draw` a random number for this request and
    /// `sticky` the hash of the request's sticky cookie, if it has one.
    pub fn pick(&self, rr: &mut u64, draw: u64, sticky: Option<u64>) -> (r: usize)
        requires
            self.upstreams@.len() > 0,
        ensures
            r == pick_index(
                self.policy,
                self.upstreams@.len(),
                *old(rr) as nat,
                draw as nat,
                sticky_nat(sticky),
            ),
            r < self.upstreams@.len(),
            advances_counter(self.policy, sticky_nat(sticky)) ==> *final(rr) == next_counter(
                *old(rr),
            ),
            !advances_counter(self.policy, sticky_nat(sticky)) ==> *final(rr) == *old(rr),
    {
        let n = self.upstreams.len() as u64;
        let cur = *rr;
        let by_counter = (cur % n) as usize;
        let next = if cur == u64::MAX {
            0
        } else {
            cur + 1
        };
        match self.policy {
            LoadBalance::Primary => 0,
            LoadBalance::RoundRobin => {
                *rr = next;
                by_counter
            },
            LoadBalance::Random => (draw % n) as usize,
            LoadBalance::StickyCookie => match sticky {
                Some(h) => (h % n) as usize,
                None => {
                    *rr = next;
                    by_counter
                },
            },
        }
    }
}

impl BackendTable {
    /// Routes a request for the normalised host `name` and target `path`:
    /// the virtual host by most specific name, then its rule by longest
    /// prefix, then one upstream of the rule's group.
    pub fn route(&self, name: &[u8], path: &[u8], rr: &mut u64, draw: u64, sticky: Option<u64>) -> (r:
        Result<Route, RequestError>)
        requires
            table_wf(self.hosts@),
        ensures
            r matches Ok(rt) ==> {
                &&& host_lookup_ok(self.hosts@, name@, rt.host as int)
                &&& is_longest_prefix(
                    rule_prefixes(self.hosts@[rt.host as int].rules@),
                    path@,
                    rt.rule as int,
                )
                &&& rt.upstream == pick_index(
                    self.hosts@[rt.host as int].rules@[rt.rule as int].group.policy,
                    self.hosts@[rt.host as int].rules@[rt.rule as int].group.upstreams@.len(),
                    *old(rr) as nat,
                    draw as nat,
                    sticky_nat(sticky),
                )
            },
            r is Err ==> r == Err::<Route, RequestError>(RequestError::NotFound),
            r is Err <==> route_fails(self.hosts@, name@, path@),
            r is Err ==> *final(rr) == *old(rr),
    {
        let h = match self.find_host(name) {
            Ok(h) => h,
            Err(e) => {
                return Err(e);
            },
        };
        proof {
            lemma_host_lookup_unique(self.hosts@, name@, h as int);
        }
        let vh = &self.hosts[h];
        let k = match vh.find_rule(path) {
            Ok(k) => k,
            Err(e) => {
                return Err(e);
            },
        };
        let group = &vh.rules[k].group;
        assert(group.upstreams@.len() > 0);
        let u = group.pick(rr, draw, sticky);
        Ok(Route { host: h, rule: k, upstream: u })
    }
}

/// The host lookup's outcome is unique.
proof fn lemma_host_lookup_unique(hosts: Seq<VirtualHost>, name: Seq<u8>, i: int)
    requires
        host_lookup_ok(hosts, name, i),
    ensures
        forall|j: int| host_lookup_ok(hosts, name, j) ==> j == i,
{
    assert forall|j: int| host_lookup_ok(hosts, name, j) implies j == i by {
        if j < i {
            if any_match(host_names(hosts), name) {
            }
        } else if i < j {
        }
    }
}

/// A routed request is served by the most specific host and the longest
/// prefix: no configured host matching the name is strictly more specific,
/// and no rule of the host has a strictly longer matching prefix.
pub proof fn lemma_route_most_specific(
    hosts: Seq<VirtualHost>,
    name: Seq<u8>,
    path: Seq<u8>,
    h: int,
    p: int,
)
    requires
        host_lookup_ok(hosts, name, h),
        is_longest_prefix(rule_prefixes(hosts[h].rules@), path, p),
    ensures
        forall|j: int|
            0 <= j < hosts.len() && name_matches(hosts[j].server_name@, name) ==> match_score(
                hosts[j].server_name@,
            ) <= match_score(hosts[h].server_name@),
        forall|k: int|
            0 <= k < hosts[h].rules@.len() && prefix_matches(hosts[h].rules@[k].prefix@, path)
                ==> hosts[h].rules@[k].prefix@.len() <= hosts[h].rules@[p].prefix@.len(),
{
    let names = host_names(hosts);
    let ps = rule_prefixes(hosts[h].rules@);
    assert forall|j: int|
        0 <= j < hosts.len() && name_matches(hosts[j].server_name@, name) implies match_score(
        hosts[j].server_name@,
    ) <= match_score(hosts[h].server_name@) by {
        assert(names[j] == hosts[j].server_name@);
        assert(any_match(names, name));
    }
    assert forall|k: int|
        0 <= k < hosts[h].rules@.len() && prefix_matches(
            hosts[h].rules@[k].prefix@,
            path,
        ) implies hosts[h].rules@[k].prefix@.len() <= hosts[h].rules@[p].prefix@.len() by {
        assert(ps[k] == hosts[h].rules@[k].prefix@);
    }
}

} // verus!
