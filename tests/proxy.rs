use rpxy::admission::{Admission, ClientsCount};
use rpxy::certs::{CertEntry, CertSnapshot, CertStore};
use rpxy::connection::{ConnEvent, ConnLimits, ConnState, Connection};
use rpxy::error::{RequestError, TlsError};
use rpxy::forwarded::{forwarded_element, parse_forwarded_element, ForwardedFields};
use rpxy::proxy::Proxy;
use rpxy::globals::{listen_sockets_for, Globals, ListenAddr};
use rpxy::handler::{prepare_upstream_request, resolve_host, rewrite_path, ClientInfo, RequestHead};
use rpxy::headers::{connection_tokens, is_upgrade_request, scrub_hop_by_hop, Header};
use rpxy::names::normalize_host;
use rpxy::routing::{
    BackendTable, LoadBalance, PathRule, Scheme, Upstream, UpstreamGroup, VirtualHost,
};
use rpxy::supervisor::{
    cancels_root, first_failure, handover_bytes, received_generation, Generation, Outcome,
    ReloadOutcome, RestartError, ServiceKind, DEFAULT_MAX_RESTART_GENERATION,
};

fn b(s: &str) -> Vec<u8> {
    s.as_bytes().to_vec()
}

fn upstream(host: &str) -> Upstream {
    Upstream { scheme: Scheme::Http, host: b(host), port: 8080, host_override: None, sni_override: None }
}

fn group(hosts: &[&str], policy: LoadBalance) -> UpstreamGroup {
    UpstreamGroup { upstreams: hosts.iter().map(|h| upstream(h)).collect(), policy }
}

fn rule(prefix: &str, up: &str) -> PathRule {
    PathRule { prefix: b(prefix), replace_prefix: None, group: group(&[up], LoadBalance::Primary) }
}

fn vhost(name: &str, rules: Vec<PathRule>) -> VirtualHost {
    VirtualHost { server_name: b(name), is_default: false, rules, upstream_timeout_ms: None, tls_required: false }
}

fn hdr(n: &str, v: &str) -> Header {
    Header { name: b(n), value: b(v) }
}

fn names_of(hs: &[Header]) -> Vec<String> {
    hs.iter().map(|h| String::from_utf8(h.name.clone()).unwrap()).collect()
}

fn client(tls: bool, sni: Option<&str>) -> ClientInfo {
    ClientInfo { client_addr: b("192.0.2.7"), listen_addr: b("198.51.100.1"), tls, sni: sni.map(b) }
}

fn two_host_table() -> BackendTable {
    BackendTable {
        hosts: vec![
            vhost("a.example", vec![rule("/", "up1")]),
            vhost("*.b.example", vec![rule("/", "up2")]),
        ],
    }
}

#[test]
fn admission_boundary() {
    let mut c = ClientsCount::new();
    assert_eq!(c.try_admit(2), Admission::Admitted);
    assert_eq!(c.current(), 1);
    assert_eq!(c.try_admit(2), Admission::Admitted);
    assert_eq!(c.current(), 2);
    assert_eq!(c.try_admit(2), Admission::Rejected);
    assert_eq!(c.current(), 2);
    c.release();
    assert_eq!(c.current(), 1);
}

#[test]
fn admission_zero_ceiling_rejects() {
    let mut c = ClientsCount::new();
    assert_eq!(c.try_admit(0), Admission::Rejected);
    assert_eq!(c.current(), 0);
}

#[test]
fn increment_and_decrement_return_previous() {
    let mut c = ClientsCount::new();
    assert_eq!(c.increment(), 0);
    assert_eq!(c.increment(), 1);
    assert_eq!(c.decrement(), 2);
    assert_eq!(c.decrement(), 1);
    assert_eq!(c.decrement(), 0);
    assert_eq!(c.current(), 0);
}

#[test]
fn release_never_below_zero() {
    let mut c = ClientsCount::new();
    c.release();
    assert_eq!(c.current(), 0);
}

#[test]
fn host_routing_wildcard() {
    let t = two_host_table();
    let req = RequestHead { path: b("/"), headers: vec![hdr("Host", "x.b.example")] };
    let mut rr: u64 = 0;
    let u = prepare_upstream_request(&t, &req, &client(false, None), &mut rr, 0, None, 30000).unwrap();
    assert_eq!(u.route.host, 1);
    assert_eq!(t.hosts[u.route.host].rules[u.route.rule].group.upstreams[u.route.upstream].host, b("up2"));
    assert_eq!(u.host, b("x.b.example"));
    assert_eq!(u.timeout_ms, 30000);
}

#[test]
fn host_routing_exact_and_override() {
    let mut t = two_host_table();
    t.hosts[0].rules[0].group.upstreams[0].host_override = Some(b("internal.a"));
    let req = RequestHead { path: b("/"), headers: vec![hdr("host", "A.Example:8080")] };
    let mut rr: u64 = 0;
    let u = prepare_upstream_request(&t, &req, &client(false, None), &mut rr, 0, None, 1).unwrap();
    assert_eq!(u.route.host, 0);
    assert_eq!(u.host, b("internal.a"));
}

#[test]
fn wildcard_does_not_match_its_suffix() {
    let t = two_host_table();
    assert_eq!(t.find_host(b"b.example"), Err(RequestError::NotFound));
    assert_eq!(t.find_host(b"y.x.b.example"), Ok(1));
}

#[test]
fn default_host_fallback() {
    let mut t = two_host_table();
    t.hosts[0].is_default = true;
    assert_eq!(t.find_host(b"other.example"), Ok(0));
}

#[test]
fn path_prefix_precedence() {
    let t = BackendTable {
        hosts: vec![vhost("a.example", vec![rule("/api", "up1"), rule("/api/v2", "up2")])],
    };
    let mut rr: u64 = 0;
    let r = t.route(b"a.example", b"/api/v2/users", &mut rr, 0, None).unwrap();
    assert_eq!(r.rule, 1);
    let r = t.route(b"a.example", b"/api/v1/users", &mut rr, 0, None).unwrap();
    assert_eq!(r.rule, 0);
    assert_eq!(t.route(b"a.example", b"/other", &mut rr, 0, None), Err(RequestError::NotFound));
}

#[test]
fn path_prefix_tie_goes_to_first_declared() {
    let vh = vhost("a.example", vec![rule("/api", "up1"), rule("/api", "up2")]);
    assert_eq!(vh.find_rule(b"/api/x"), Ok(0));
}

#[test]
fn path_replacement() {
    let p = rewrite_path(b"/api/v2/users", b"/api", &Some(b("/v")));
    assert_eq!(p, b("/v/v2/users"));
    assert_eq!(rewrite_path(b"/api/x", b"/api", &None), b("/api/x"));
}

#[test]
fn load_balancing_policies() {
    let mut rr: u64 = 0;
    let g = group(&["u0", "u1", "u2"], LoadBalance::RoundRobin);
    assert_eq!(g.pick(&mut rr, 0, None), 0);
    assert_eq!(g.pick(&mut rr, 0, None), 1);
    assert_eq!(g.pick(&mut rr, 0, None), 2);
    assert_eq!(g.pick(&mut rr, 0, None), 0);
    assert_eq!(rr, 4);
    let g = group(&["u0", "u1", "u2"], LoadBalance::Random);
    assert_eq!(g.pick(&mut rr, 7, None), 1);
    let g = group(&["u0", "u1", "u2"], LoadBalance::StickyCookie);
    assert_eq!(g.pick(&mut rr, 0, Some(5)), 2);
    assert_eq!(rr, 4);
    let g = group(&["u0", "u1", "u2"], LoadBalance::Primary);
    assert_eq!(g.pick(&mut rr, 9, Some(5)), 0);
    let mut top = u64::MAX;
    let g = group(&["u0", "u1"], LoadBalance::RoundRobin);
    assert_eq!(g.pick(&mut top, 0, None), 1);
    assert_eq!(top, 0);
}

#[test]
fn sni_mismatch_is_misdirected() {
    let t = two_host_table();
    let req = RequestHead { path: b("/"), headers: vec![hdr("Host", "b.example")] };
    let mut rr: u64 = 0;
    let r = prepare_upstream_request(&t, &req, &client(true, Some("a.example")), &mut rr, 0, None, 1);
    let e = r.err().unwrap();
    assert_eq!(e, RequestError::MisdirectedRequest);
    assert_eq!(e.status_code(), 421);
}

#[test]
fn host_resolution_cases() {
    assert_eq!(resolve_host(&vec![], false, None), Err(RequestError::BadRequest));
    assert_eq!(resolve_host(&vec![hdr("Host", ":80")], false, None), Err(RequestError::BadRequest));
    assert_eq!(resolve_host(&vec![hdr("Host", "[::1]:8080")], false, None), Ok(b("[::1]")));
    assert_eq!(resolve_host(&vec![], true, Some(b"A.example")), Ok(b("a.example")));
    assert_eq!(resolve_host(&vec![hdr("HOST", "a.example:443")], true, Some(b"a.example")), Ok(b("a.example")));
    assert_eq!(normalize_host(b"[::1"), None);
}

#[test]
fn status_codes() {
    assert_eq!(RequestError::BadRequest.status_code(), 400);
    assert_eq!(RequestError::NotFound.status_code(), 404);
    assert_eq!(RequestError::BadGateway.status_code(), 502);
    assert_eq!(RequestError::GatewayTimeout.status_code(), 504);
    assert_eq!(RequestError::Internal.status_code(), 500);
}

#[test]
fn connection_value_tokens() {
    let t = connection_tokens(b" X-Internal ,\tUpgrade,,close");
    assert_eq!(t, vec![b("x-internal"), b("upgrade"), b(""), b("close")]);
}

fn scrub_input() -> Vec<Header> {
    vec![
        hdr("Connection", "x-internal, Upgrade"),
        hdr("X-Internal", "secret"),
        hdr("Upgrade", "websocket"),
        hdr("Accept", "*/*"),
        hdr("Keep-Alive", "timeout=5"),
    ]
}

#[test]
fn hop_by_hop_scrubbing_plain() {
    let hs = scrub_input();
    let out = scrub_hop_by_hop(&hs, false);
    assert_eq!(names_of(&out), vec!["Accept".to_string()]);
}

#[test]
fn hop_by_hop_scrubbing_upgrade() {
    let hs = scrub_input();
    assert!(is_upgrade_request(&hs));
    let out = scrub_hop_by_hop(&hs, true);
    assert_eq!(names_of(&out), vec!["Upgrade", "Accept", "connection"]);
    assert_eq!(out[0].value, b("websocket"));
    assert_eq!(out[2].value, b("upgrade"));
}

#[test]
fn not_an_upgrade_without_connection_token() {
    let hs = vec![hdr("Upgrade", "websocket"), hdr("Connection", "keep-alive")];
    assert!(!is_upgrade_request(&hs));
}

#[test]
fn forwarded_headers_appended() {
    let t = two_host_table();
    let req = RequestHead {
        path: b("/"),
        headers: vec![hdr("Host", "a.example"), hdr("X-Forwarded-For", "203.0.113.9")],
    };
    let mut rr: u64 = 0;
    let u = prepare_upstream_request(&t, &req, &client(false, None), &mut rr, 0, None, 1).unwrap();
    assert_eq!(
        names_of(&u.headers),
        vec!["Host", "X-Forwarded-For", "forwarded", "x-forwarded-for", "x-forwarded-proto", "x-forwarded-host"]
    );
    assert_eq!(u.headers[2].value, b("for=192.0.2.7;proto=http;host=a.example;by=198.51.100.1"));
    assert_eq!(u.headers[4].value, b("http"));
}

#[test]
fn forwarded_element_quotes_ipv6() {
    let e = forwarded_element(b"[2001:db8::1]", b"https", b"a.example", b"10.0.0.1");
    assert_eq!(e, b("for=\"[2001:db8::1]\";proto=https;host=a.example;by=10.0.0.1"));
}

fn snapshot() -> CertSnapshot {
    let entry = |n: &str, ca: bool| CertEntry {
        server_name: b(n),
        chain: b("chain"),
        private_key: b("key"),
        client_ca: if ca { Some(b("ca")) } else { None },
        ocsp_staple: None,
    };
    CertSnapshot {
        entries: vec![entry("*.example", false), entry("*.a.example", false), entry("x.a.example", false), entry("m.example", true)],
        default: None,
    }
}

#[test]
fn cert_lookup_order() {
    let s = snapshot();
    assert_eq!(s.lookup(Some(b"x.a.example")), Ok(2));
    assert_eq!(s.lookup(Some(b"y.a.example")), Ok(1));
    assert_eq!(s.lookup(Some(b"q.example")), Ok(0));
    assert_eq!(s.lookup(Some(b"other.org")), Err(TlsError::NoCertificate));
    assert_eq!(s.lookup(None), Err(TlsError::NoSni));
    let mut d = snapshot();
    d.default = Some(3);
    assert_eq!(d.lookup(None), Ok(3));
    assert_eq!(d.lookup(Some(b"other.org")), Ok(3));
}

#[test]
fn handshake_decisions() {
    let s = snapshot();
    assert_eq!(s.decide_handshake(Some(b"y.a.example"), false, 9999, 10000), Ok(1));
    assert_eq!(s.decide_handshake(Some(b"y.a.example"), false, 10000, 10000), Err(TlsError::HandshakeTimeout));
    assert_eq!(s.decide_handshake(Some(b"m.example"), false, 0, 10000), Err(TlsError::ClientCertRejected));
    assert_eq!(s.decide_handshake(Some(b"m.example"), true, 0, 10000), Ok(3));
}

fn limits() -> ConnLimits {
    ConnLimits { handshake_timeout_ms: 5000, serve_timeout_ms: 31000, drain_timeout_ms: 2000 }
}

#[test]
fn connection_releases_once() {
    let mut count = ClientsCount::new();
    let mut c = Connection::accept(&mut count, 10, true, limits()).unwrap();
    assert_eq!(count.current(), 1);
    assert_eq!(c.step(&mut count, ConnEvent::Begin), None);
    assert_eq!(c.state, ConnState::TlsHandshaking);
    assert_eq!(c.step(&mut count, ConnEvent::Handshake(None)), None);
    assert_eq!(c.state, ConnState::Serving);
    c.step(&mut count, ConnEvent::Upgrade);
    assert_eq!(c.state, ConnState::Upgraded);
    c.step(&mut count, ConnEvent::Finished);
    assert_eq!(c.state, ConnState::Closed);
    assert_eq!(count.current(), 0);
    c.step(&mut count, ConnEvent::Finished);
    assert_eq!(count.current(), 0);
}

#[test]
fn handshake_timeout_frees_slot() {
    let mut count = ClientsCount::new();
    let mut c = Connection::accept(&mut count, 1, true, limits()).unwrap();
    assert!(Connection::accept(&mut count, 1, true, limits()).is_none());
    c.step(&mut count, ConnEvent::Begin);
    assert_eq!(c.step(&mut count, ConnEvent::Elapsed(4999)), None);
    assert_eq!(c.state, ConnState::TlsHandshaking);
    assert_eq!(c.step(&mut count, ConnEvent::Elapsed(5000)), Some(TlsError::HandshakeTimeout));
    assert_eq!(c.state, ConnState::Closed);
    assert_eq!(count.current(), 0);
    assert!(Connection::accept(&mut count, 1, false, limits()).is_some());
}

#[test]
fn cancel_drains_then_closes() {
    let mut count = ClientsCount::new();
    let mut c = Connection::accept(&mut count, 1, false, limits()).unwrap();
    c.step(&mut count, ConnEvent::Begin);
    assert_eq!(c.state, ConnState::Serving);
    c.step(&mut count, ConnEvent::Cancel);
    assert_eq!(c.state, ConnState::Draining);
    c.step(&mut count, ConnEvent::Elapsed(1999));
    assert_eq!(count.current(), 1);
    c.step(&mut count, ConnEvent::Elapsed(2000));
    assert_eq!(c.state, ConnState::Closed);
    assert_eq!(count.current(), 0);
}

#[test]
fn restart_generation_cap() {
    assert_eq!(DEFAULT_MAX_RESTART_GENERATION, 4);
    assert_eq!(handover_bytes(4, DEFAULT_MAX_RESTART_GENERATION), Ok(vec![0, 0, 0, 4]));
    assert_eq!(handover_bytes(5, DEFAULT_MAX_RESTART_GENERATION), Err(RestartError::TooManyRestarts));
    assert_eq!(handover_bytes(0x01020304, u32::MAX), Ok(vec![1, 2, 3, 4]));
}

#[test]
fn restart_generation_received() {
    assert_eq!(received_generation(&[0, 0, 0, 4]), Ok(5));
    assert_eq!(received_generation(&[1, 2, 3, 4]), Ok(0x01020305));
    assert_eq!(received_generation(&[0, 0, 4]), Err(RestartError::BadHandover));
    assert_eq!(received_generation(&[255, 255, 255, 255]), Err(RestartError::BadHandover));
}

#[test]
fn service_outcomes() {
    assert_eq!(first_failure(&vec![Outcome::Completed, Outcome::Completed]), None);
    assert_eq!(first_failure(&vec![Outcome::Completed, Outcome::Failed, Outcome::Failed]), Some(1));
    assert!(cancels_root(ServiceKind::Proxy, Outcome::Failed));
    assert!(!cancels_root(ServiceKind::Proxy, Outcome::Completed));
    assert!(cancels_root(ServiceKind::CertReloader, Outcome::Completed));
    assert!(cancels_root(ServiceKind::Acme, Outcome::Failed));
}

fn generation(port: u16) -> Generation {
    Generation { globals: Globals::new(Some(port), None, false, 30000, 16, 100, true), table: two_host_table() }
}

#[test]
fn reload_swaps_or_keeps() {
    let mut g = generation(80);
    assert_eq!(g.reload(None), ReloadOutcome::KeptOld);
    assert_eq!(g.globals.http_port, Some(80));
    assert_eq!(g.reload(Some(generation(8080))), ReloadOutcome::Swapped);
    assert_eq!(g.globals.http_port, Some(8080));
    assert_eq!(g.reload(Some(generation(8080))), ReloadOutcome::Swapped);
    assert_eq!(g.table.find_host(b"x.b.example"), Ok(1));
}

#[test]
fn listen_sockets() {
    assert_eq!(
        listen_sockets_for(Some(80), Some(443), true),
        vec![
            ListenAddr { ipv6: false, port: 80 },
            ListenAddr { ipv6: false, port: 443 },
            ListenAddr { ipv6: true, port: 80 },
            ListenAddr { ipv6: true, port: 443 },
        ]
    );
    assert_eq!(listen_sockets_for(None, Some(443), false), vec![ListenAddr { ipv6: false, port: 443 }]);
    let g = Globals::new(None, None, true, 1, 2, 3, false);
    assert_eq!(g.listen_sockets.len(), 0);
    assert_eq!(g.clients_count.current(), 0);
}

#[test]
fn forwarded_round_trip() {
    let e = forwarded_element(b"[2001:db8::1]:4711", b"https", b"a.example", b"192.0.2.43");
    let f = parse_forwarded_element(&e).unwrap();
    assert_eq!(
        f,
        ForwardedFields { for_node: b("[2001:db8::1]:4711"), proto: b("https"), host: b("a.example"), by: b("192.0.2.43") }
    );
    let e = forwarded_element(b"192.0.2.7", b"http", b"x.b.example", b"_hidden");
    let f = parse_forwarded_element(&e).unwrap();
    assert_eq!(f.for_node, b("192.0.2.7"));
    assert_eq!(f.by, b("_hidden"));
}

#[test]
fn forwarded_parse_any_order_and_case() {
    let f = parse_forwarded_element(b"By=\"[::1]\";HOST=h;Proto=http;for=c;ext=1").unwrap();
    assert_eq!(f.for_node, b("c"));
    assert_eq!(f.proto, b("http"));
    assert_eq!(f.host, b("h"));
    assert_eq!(f.by, b("[::1]"));
}

#[test]
fn forwarded_parse_rejects() {
    assert_eq!(parse_forwarded_element(b"for=a;proto=b;host=c"), None);
    assert_eq!(parse_forwarded_element(b"for=a;for=b;proto=b;host=c;by=d"), None);
    assert_eq!(parse_forwarded_element(b"for=a;proto=b;host=c;by"), None);
    assert_eq!(parse_forwarded_element(b"for=[::1];proto=b;host=c;by=d"), None);
    assert_eq!(parse_forwarded_element(b"for=\"a\"b\";proto=b;host=c;by=d"), None);
}

#[test]
fn proxy_admission_and_limits() {
    let p = Proxy {
        listening_on: ListenAddr { ipv6: false, port: 8080 },
        tls_enabled: true,
        handshake_timeout_ms: 5000,
        drain_timeout_ms: 2000,
    };
    let mut g = Globals::new(Some(8080), None, false, 30000, 1, 100, true);
    let l = p.connection_limits(&g);
    assert_eq!(l.serve_timeout_ms, 31000);
    let c = p.client_serve(&mut g).unwrap();
    assert_eq!(c.state, ConnState::Accepted);
    assert!(c.tls);
    assert_eq!(g.clients_count.current(), 1);
    assert!(p.client_serve(&mut g).is_none());
    assert_eq!(g.clients_count.current(), 1);
    g.timeout_ms = u64::MAX;
    assert_eq!(p.connection_limits(&g).serve_timeout_ms, u64::MAX);
}

#[test]
fn cert_reload_serves_new_chain() {
    let mut store = CertStore::new(snapshot());
    let before = store.current().clone();
    let mut next = snapshot();
    next.entries[1].chain = b("new chain");
    assert!(store.publish(Some(next)));
    let i = store.current().lookup(Some(b"y.a.example")).unwrap();
    assert_eq!(store.current().entries[i].chain, b("new chain"));
    assert_eq!(before.entries[i].chain, b("chain"));
    assert!(!store.publish(None));
    assert_eq!(store.current().entries[i].chain, b("new chain"));
}

#[test]
fn graceful_restart_generations() {
    let mut generation: u32 = 0;
    for _ in 0..5 {
        let bytes = handover_bytes(generation, DEFAULT_MAX_RESTART_GENERATION).unwrap();
        generation = received_generation(&bytes).unwrap();
    }
    assert_eq!(generation, 5);
    assert_eq!(handover_bytes(generation, DEFAULT_MAX_RESTART_GENERATION), Err(RestartError::TooManyRestarts));
}

#[test]
fn reload_same_content_routes_alike() {
    let mut g = generation(80);
    let mut rr: u64 = 0;
    let before = g.table.route(b"x.b.example", b"/p", &mut rr, 0, None);
    assert_eq!(g.reload(Some(generation(80))), ReloadOutcome::Swapped);
    let mut rr2: u64 = 0;
    assert_eq!(g.table.route(b"x.b.example", b"/p", &mut rr2, 0, None), before);
    assert_eq!(g.globals.listen_sockets, generation(80).globals.listen_sockets);
}
