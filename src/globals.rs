//! Process-wide settings of a running proxy.
use vstd::prelude::*;
use crate::admission::ClientsCount;

verus! {

/// An address a listener binds: the unspecified address of its family and a
/// port.
#[derive(Debug, Clone, Copy, PartialEq, Eq, Structural)]
pub struct ListenAddr {
    pub ipv6: bool,
    pub port: u16,
}

/// Settings shared by every listener of one configuration generation.
#[derive(Debug)]
pub struct Globals {
    pub listen_sockets: Vec<ListenAddr>,
    pub http_port: Option<u16>,
    pub https_port: Option<u16>,
    /// Per-connection serve timeout, in milliseconds.
    pub timeout_ms: u64,
    pub max_clients: usize,
    pub clients_count: ClientsCount,
    pub max_concurrent_streams: u32,
    pub keepalive: bool,
}

/// The addresses to bind for the given ports: IPv4 for each, and IPv6 too
/// when enabled.
pub open spec fn listen_addrs(http: Option<u16>, https: Option<u16>, ipv6: bool) -> Seq<ListenAddr> {
    let ports: Seq<u16> = match (http, https) {
        (Some(a), Some(b)) => seq![a, b],
        (Some(a), None) => seq![a],
        (None, Some(b)) => seq![b],
        (None, None) => seq![],
    };
    let v4 = ports.map_values(|p: u16| ListenAddr { ipv6: false, port: p });
    if ipv6 {
        v4 + ports.map_values(|p: u16| ListenAddr { ipv6: true, port: p })
    } else {
        v4
    }
}

/// The addresses to bind for the given ports.
pub fn listen_sockets_for(http_port: Option<u16>, https_port: Option<u16>, ipv6: bool) -> (r: Vec<
    ListenAddr,
>)
    ensures
        r@ == listen_addrs(http_port, https_port, ipv6),
{
    let mut ports: Vec<u16> = Vec::new();
    if let Some(p) = http_port {
        ports.push(p);
    }
    if let Some(p) = https_port {
        ports.push(p);
    }
    let ghost ps = ports@;
    assert(ps =~= match (http_port, https_port) {
        (Some(a), Some(b)) => seq![a, b],
        (Some(a), None) => seq![a],
        (None, Some(b)) => seq![b],
        (None, None) => Seq::<u16>::empty(),
    });
    let mut r: Vec<ListenAddr> = Vec::new();
    let mut i: usize = 0;
    while i < ports.len()
        invariant
            i <= ports@.len(),
            r@ =~= ports@.subrange(0, i as int).map_values(|p: u16| ListenAddr { ipv6: false, port: p }),
        decreases ports.len() - i,
    {
        r.push(ListenAddr { ipv6: false, port: ports[i] });
        i = i + 1;
        assert(r@ =~= ports@.subrange(0, i as int).map_values(|p: u16| ListenAddr { ipv6: false, port: p }));
    }
    assert(ports@.subrange(0, ports@.len() as int) =~= ports@);
    if ipv6 {
        let ghost v4 = r@;
        let mut j: usize = 0;
        while j < ports.len()
            invariant
                j <= ports@.len(),
                v4 == ports@.map_values(|p: u16| ListenAddr { ipv6: false, port: p }),
                r@ =~= v4 + ports@.subrange(0, j as int).map_values(|p: u16| ListenAddr { ipv6: true, port: p }),
            decreases ports.len() - j,
        {
            r.push(ListenAddr { ipv6: true, port: ports[j] });
            j = j + 1;
            assert(r@ =~= v4 + ports@.subrange(0, j as int).map_values(|p: u16| ListenAddr { ipv6: true, port: p }));
        }
    }
    r
}

impl Globals {
    /// Settings for a new generation, with no client counted yet.
    pub fn new(
        http_port: Option<u16>,
        https_port: Option<u16>,
        listen_ipv6: bool,
        timeout_ms: u64,
        max_clients: usize,
        max_concurrent_streams: u32,
        keepalive: bool,
    ) -> (r: Globals)
        ensures
            r.listen_sockets@ == listen_addrs(http_port, https_port, listen_ipv6),
            r.http_port == http_port,
            r.https_port == https_port,
            r.timeout_ms == timeout_ms,
            r.max_clients == max_clients,
            r.clients_count@ == 0,
            r.max_concurrent_streams == max_concurrent_streams,
            r.keepalive == keepalive,
    {
        Globals {
            listen_sockets: listen_sockets_for(http_port, https_port, listen_ipv6),
            http_port,
            https_port,
            timeout_ms,
            max_clients,
            clients_count: ClientsCount::new(),
            max_concurrent_streams,
            keepalive,
        }
    }
}

} // verus!
