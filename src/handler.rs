//! The request handler: from a request head to what is sent upstream.
use vstd::prelude::*;
use crate::error::RequestError;
use crate::forwarded::{element, forwarded_element};
use crate::headers::{
    copy_bytes, headers_view, is_upgrade_request, requests_upgrade, scrub_hop_by_hop, scrubbed,
    Header,
};
use crate::names::{bytes_eq, lower, lower_range, normalize_host, normalized_host};
use crate::routing::{
    host_lookup_ok, is_longest_prefix, pick_index, route_fails, rule_prefixes, sticky_nat,
    table_wf, BackendTable, Route, Upstream,
};

verus! {

/// The head of a client request.
#[derive(Debug, Clone)]
pub struct RequestHead {
    pub path: Vec<u8>,
    pub headers: Vec<Header>,
}

/// How a request reached the proxy.
#[derive(Debug, Clone)]
pub struct ClientInfo {
    /// Client address as text (`192.0.2.1`, `[2001:db8::1]`).
    pub client_addr: Vec<u8>,
    /// Listen address as text.
    pub listen_addr: Vec<u8>,
    pub tls: bool,
    /// Server name the client sent in its TLS handshake.
    pub sni: Option<Vec<u8>>,
}

/// What the proxy sends upstream for one request.
#[derive(Debug, Clone)]
pub struct UpstreamRequest {
    pub route: Route,
    /// The request target after prefix replacement.
    pub path: Vec<u8>,
    /// The value of the upstream request's `Host` header.
    pub host: Vec<u8>,
    /// Every other header to send.
    pub headers: Vec<Header>,
    pub timeout_ms: u32,
}

/// The name `host`.
pub open spec fn host_name() -> Seq<u8> {
    seq![104u8, 111u8, 115u8, 116u8]
}

/// The index of the first header of `all` named `lname` (lower case).
pub open spec fn first_named(all: Seq<(Seq<u8>, Seq<u8>)>, lname: Seq<u8>) -> Option<int>
    decreases all.len(),
{
    if all.len() == 0 {
        None
    } else {
        match first_named(all.drop_last(), lname) {
            Some(k) => Some(k),
            None => if lower(all.last().0) == lname {
                Some(all.len() - 1)
            } else {
                None
            },
        }
    }
}

proof fn lemma_first_named_bounds(all: Seq<(Seq<u8>, Seq<u8>)>, lname: Seq<u8>)
    ensures
        first_named(all, lname) matches Some(k) ==> 0 <= k < all.len() && lower(all[k].0) == lname,
    decreases all.len(),
{
    if all.len() > 0 {
        lemma_first_named_bounds(all.drop_last(), lname);
    }
}

/// The request's host identity: the TLS server name when there is one
/// (a `Host` header naming another host is misdirected), else the host of
/// the `Host` header; normalised either way.
pub open spec fn effective_host(all: Seq<(Seq<u8>, Seq<u8>)>, tls: bool, sni: Option<Seq<u8>>) -> Result<
    Seq<u8>,
    RequestError,
> {
    let hdr = first_named(all, host_name());
    if tls && sni is Some {
        let s = lower(sni->Some_0);
        match hdr {
            None => Ok(s),
            Some(k) => match normalized_host(all[k].1) {
                None => Err(RequestError::BadRequest),
                Some(h) => if h == s {
                    Ok(s)
                } else {
                    Err(RequestError::MisdirectedRequest)
                },
            },
        }
    } else {
        match hdr {
            None => Err(RequestError::BadRequest),
            Some(k) => match normalized_host(all[k].1) {
                None => Err(RequestError::BadRequest),
                Some(h) => Ok(h),
            },
        }
    }
}

/// The request target after replacing the rule's prefix, when it declares
/// a replacement.
pub open spec fn rewritten(path: Seq<u8>, prefix: Seq<u8>, rep: Option<Seq<u8>>) -> Seq<u8> {
    match rep {
        Some(r) => r + path.subrange(prefix.len() as int, path.len() as int),
        None => path,
    }
}

/// The upstream's `Host`: its override when configured, else the client's
/// host.
pub open spec fn upstream_host(u: Upstream, host: Seq<u8>) -> Seq<u8> {
    match u.host_override {
        Some(o) => o@,
        None => host,
    }
}

/// `http` or `https`.
pub open spec fn proto_name(tls: bool) -> Seq<u8> {
    if tls {
        seq![104u8, 116u8, 116u8, 112u8, 115u8]
    } else {
        seq![104u8, 116u8, 116u8, 112u8]
    }
}

/// `forwarded`.
pub open spec fn forwarded_name() -> Seq<u8> {
    seq![102u8, 111u8, 114u8, 119u8, 97u8, 114u8, 100u8, 101u8, 100u8]
}

/// `x-forwarded-`.
pub open spec fn x_forwarded() -> Seq<u8> {
    seq![120u8, 45u8] + forwarded_name() + seq![45u8]
}

/// The headers appended for the upstream: `Forwarded`,
/// `X-Forwarded-For`, `X-Forwarded-Proto` and `X-Forwarded-Host`.
pub open spec fn forwarding_headers(client: Seq<u8>, listen: Seq<u8>, tls: bool, host: Seq<u8>) -> Seq<
    (Seq<u8>, Seq<u8>),
> {
    seq![
        (forwarded_name(), element(client, proto_name(tls), host, listen)),
        (x_forwarded() + seq![102u8, 111u8, 114u8], client),
        (x_forwarded() + seq![112u8, 114u8, 111u8, 116u8, 111u8], proto_name(tls)),
        (x_forwarded() + host_name(), host),
    ]
}

/// Optional vector as an optional sequence.
pub open spec fn opt_bytes(o: Option<Vec<u8>>) -> Option<Seq<u8>> {
    match o {
        Some(v) => Some(v@),
        None => None,
    }
}

/// Index of the first header named `lname` (given in lower case).
pub fn find_header(headers: &Vec<Header>, lname: &[u8]) -> (r: Option<usize>)
    ensures
        r matches Some(k) ==> first_named(headers_view(headers@), lname@) == Some(k as int),
        r is None ==> first_named(headers_view(headers@), lname@) is None,
{
    let ghost hv = headers_view(headers@);
    let mut found: Option<usize> = None;
    let mut i: usize = 0;
    proof {
        assert(hv.subrange(0, 0) =~= Seq::<(Seq<u8>, Seq<u8>)>::empty());
    }
    while i < headers.len()
        invariant
            hv == headers_view(headers@),
            i <= headers@.len(),
            found matches Some(k) ==> first_named(hv.subrange(0, i as int), lname@) == Some(
                k as int,
            ),
            found is None ==> first_named(hv.subrange(0, i as int), lname@) is None,
        decreases headers.len() - i,
    {
        let h = &headers[i];
        proof {
            let t = hv.subrange(0, i + 1);
            assert(t.drop_last() =~= hv.subrange(0, i as int));
            assert(t.last() == h@);
            assert(h.name@.subrange(0, h.name@.len() as int) =~= h.name@);
        }
        if found.is_none() {
            let l = lower_range(h.name.as_slice(), 0, h.name.len());
            if bytes_eq(l.as_slice(), lname) {
                found = Some(i);
            }
        }
        i = i + 1;
    }
    assert(hv.subrange(0, headers@.len() as int) =~= hv);
    found
}

/// Determines the request's host identity.
pub fn resolve_host(headers: &Vec<Header>, tls: bool, sni: Option<&[u8]>) -> (r: Result<
    Vec<u8>,
    RequestError,
>)
    ensures
        r matches Ok(h) ==> effective_host(
            headers_view(headers@),
            tls,
            crate::certs::opt_view(sni),
        ) == Ok::<Seq<u8>, RequestError>(h@),
        r matches Err(e) ==> effective_host(
            headers_view(headers@),
            tls,
            crate::certs::opt_view(sni),
        ) == Err::<Seq<u8>, RequestError>(e),
{
    let hn: Vec<u8> = vec![104u8, 111u8, 115u8, 116u8];
    assert(hn@ =~= host_name());
    let hdr = find_header(headers, hn.as_slice());
    let ghost hv = headers_view(headers@);
    proof {
        lemma_first_named_bounds(hv, host_name());
    }
    if tls && sni.is_some() {
        let s = sni.unwrap();
        let ls = lower_range(s, 0, s.len());
        assert(s@.subrange(0, s@.len() as int) =~= s@);
        match hdr {
            None => Ok(ls),
            Some(k) => {
                assert(hv[k as int] == headers@[k as int]@);
                match normalize_host(headers[k].value.as_slice()) {
                    None => Err(RequestError::BadRequest),
                    Some(h) => {
                        if bytes_eq(h.as_slice(), ls.as_slice()) {
                            Ok(ls)
                        } else {
                            Err(RequestError::MisdirectedRequest)
                        }
                    },
                }
            },
        }
    } else {
        match hdr {
            None => Err(RequestError::BadRequest),
            Some(k) => {
                assert(hv[k as int] == headers@[k as int]@);
                match normalize_host(headers[k].value.as_slice()) {
                    None => Err(RequestError::BadRequest),
                    Some(h) => Ok(h),
                }
            },
        }
    }
}

/// The target with the rule's prefix replaced, when a replacement is
/// declared.
pub fn rewrite_path(path: &[u8], prefix: &[u8], rep: &Option<Vec<u8>>) -> (r: Vec<u8>)
    requires
        prefix@.len() <= path@.len(),
    ensures
        r@ == rewritten(path@, prefix@, opt_bytes(*rep)),
{
    match rep {
        Some(rp) => {
            let mut out = copy_bytes(rp.as_slice());
            let mut i: usize = prefix.len();
            while i < path.len()
                invariant
                    prefix@.len() <= i <= path@.len(),
                    out@ == rp@ + path@.subrange(prefix@.len() as int, i as int),
                decreases path.len() - i,
            {
                out.push(path[i]);
                i = i + 1;
                assert(out@ =~= rp@ + path@.subrange(prefix@.len() as int, i as int));
            }
            out
        },
        None => copy_bytes(path),
    }
}

/// The forwarding headers for a request.
fn forwarding(client: &[u8], listen: &[u8], tls: bool, host: &[u8]) -> (r: Vec<Header>)
    ensures
        headers_view(r@) == forwarding_headers(client@, listen@, tls, host@),
{
    let proto: Vec<u8> = if tls {
        vec![104u8, 116u8, 116u8, 112u8, 115u8]
    } else {
        vec![104u8, 116u8, 116u8, 112u8]
    };
    assert(proto@ =~= proto_name(tls));
    let fwd: Vec<u8> = vec![102u8, 111u8, 114u8, 119u8, 97u8, 114u8, 100u8, 101u8, 100u8];
    let xf: Vec<u8> = vec![
        120u8, 45u8, 102u8, 111u8, 114u8, 119u8, 97u8, 114u8, 100u8, 101u8, 100u8, 45u8, 102u8,
        111u8, 114u8,
    ];
    let xp: Vec<u8> = vec![
        120u8, 45u8, 102u8, 111u8, 114u8, 119u8, 97u8, 114u8, 100u8, 101u8, 100u8, 45u8, 112u8,
        114u8, 111u8, 116u8, 111u8,
    ];
    let xh: Vec<u8> = vec![
        120u8, 45u8, 102u8, 111u8, 114u8, 119u8, 97u8, 114u8, 100u8, 101u8, 100u8, 45u8, 104u8,
        111u8, 115u8, 116u8,
    ];
    let el = forwarded_element(client, proto.as_slice(), host, listen);
    let r: Vec<Header> = vec![
        Header { name: fwd, value: el },
        Header::new(xf.as_slice(), client),
        Header::new(xp.as_slice(), proto.as_slice()),
        Header::new(xh.as_slice(), host),
    ];
    proof {
        let f = forwarding_headers(client@, listen@, tls, host@);
        assert(r@[0]@.0 =~= f[0].0);
        assert(r@[1]@.0 =~= f[1].0);
        assert(r@[2]@.0 =~= f[2].0);
        assert(r@[3]@.0 =~= f[3].0);
        assert(headers_view(r@) =~= f);
    }
    r
}

/// Turns a client request into the request sent upstream: resolves the
/// host, routes it to a host, rule and upstream, rewrites the target,
/// scrubs hop-by-hop headers (keeping an upgrade's), appends the forwarding
/// headers and picks the upstream timeout.
pub fn prepare_upstream_request(
    table: &BackendTable,
    req: &RequestHead,
    client: &ClientInfo,
    rr: &mut u64,
    draw: u64,
    sticky: Option<u64>,
    default_timeout_ms: u32,
) -> (r: Result<UpstreamRequest, RequestError>)
    requires
        table_wf(table.hosts@),
    ensures
        ({
            let hv = headers_view(req.headers@);
            let eh = effective_host(hv, client.tls, opt_bytes(client.sni));
            &&& eh matches Err(e) ==> r == Err::<UpstreamRequest, RequestError>(e)
            &&& eh matches Ok(h) ==> {
                &&& r is Err <==> route_fails(table.hosts@, h, req.path@)
                &&& r is Err ==> r == Err::<UpstreamRequest, RequestError>(RequestError::NotFound)
            }
            &&& r matches Ok(u) ==> {
                let h = eh->Ok_0;
                let vh = table.hosts@[u.route.host as int];
                let rule = vh.rules@[u.route.rule as int];
                &&& eh is Ok
                &&& host_lookup_ok(table.hosts@, h, u.route.host as int)
                &&& is_longest_prefix(rule_prefixes(vh.rules@), req.path@, u.route.rule as int)
                &&& u.route.upstream == pick_index(
                    rule.group.policy,
                    rule.group.upstreams@.len(),
                    *old(rr) as nat,
                    draw as nat,
                    sticky_nat(sticky),
                )
                &&& u.path@ == rewritten(req.path@, rule.prefix@, opt_bytes(rule.replace_prefix))
                &&& u.host@ == upstream_host(rule.group.upstreams@[u.route.upstream as int], h)
                &&& headers_view(u.headers@) == scrubbed(hv, requests_upgrade(hv))
                    + forwarding_headers(client.client_addr@, client.listen_addr@, client.tls, h)
                &&& u.timeout_ms == match vh.upstream_timeout_ms {
                    Some(t) => t,
                    None => default_timeout_ms,
                }
            }
        }),
{
    let sni: Option<&[u8]> = match &client.sni {
        Some(s) => Some(s.as_slice()),
        None => None,
    };
    assert(crate::certs::opt_view(sni) == opt_bytes(client.sni));
    let host = match resolve_host(&req.headers, client.tls, sni) {
        Ok(h) => h,
        Err(e) => {
            return Err(e);
        },
    };
    let route = match table.route(host.as_slice(), req.path.as_slice(), rr, draw, sticky) {
        Ok(rt) => rt,
        Err(e) => {
            return Err(e);
        },
    };
    let vh = &table.hosts[route.host];
    let rule = &vh.rules[route.rule];
    assert(rule_prefixes(vh.rules@)[route.rule as int] == rule.prefix@);
    let path = rewrite_path(req.path.as_slice(), rule.prefix.as_slice(), &rule.replace_prefix);
    let up = &rule.group.upstreams[route.upstream];
    let up_host = match &up.host_override {
        Some(o) => copy_bytes(o.as_slice()),
        None => copy_bytes(host.as_slice()),
    };
    let upgrade = is_upgrade_request(&req.headers);
    let mut headers = scrub_hop_by_hop(&req.headers, upgrade);
    let mut fwd = forwarding(
        client.client_addr.as_slice(),
        client.listen_addr.as_slice(),
        client.tls,
        host.as_slice(),
    );
    let ghost before = headers@;
    let ghost added = fwd@;
    headers.append(&mut fwd);
    assert(headers_view(headers@) =~= headers_view(before) + headers_view(added));
    let timeout_ms = match vh.upstream_timeout_ms {
        Some(t) => t,
        None => default_timeout_ms,
    };
    Ok(UpstreamRequest { route, path, host: up_host, headers, timeout_ms })
}

} // verus!
