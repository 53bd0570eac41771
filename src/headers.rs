//! Hop-by-hop header hygiene for forwarded requests.
//!
//! Header names compare without regard to ASCII case. The names listed in a
//! `Connection` value are its comma-separated elements with surrounding
//! spaces and tabs removed.
use vstd::prelude::*;
use crate::names::{lower, lower_byte, lower_range, bytes_eq};

verus! {

/// One header field.
#[derive(Debug, Clone)]
pub struct Header {
    pub name: Vec<u8>,
    pub value: Vec<u8>,
}

impl View for Header {
    type V = (Seq<u8>, Seq<u8>);

    open spec fn view(&self) -> (Seq<u8>, Seq<u8>) {
        (self.name@, self.value@)
    }
}

/// A list of headers as name/value pairs.
pub open spec fn headers_view(hs: Seq<Header>) -> Seq<(Seq<u8>, Seq<u8>)> {
    hs.map_values(|h: Header| h@)
}

/// A list of byte vectors as sequences.
pub open spec fn bytes_list(v: Seq<Vec<u8>>) -> Seq<Seq<u8>> {
    v.map_values(|b: Vec<u8>| b@)
}

/// `s` split at every `sep`; always at least one piece.
pub open spec fn split_on(s: Seq<u8>, sep: u8) -> Seq<Seq<u8>>
    decreases s.len(),
{
    if s.len() == 0 {
        seq![Seq::<u8>::empty()]
    } else {
        let r = split_on(s.drop_last(), sep);
        if s.last() == sep {
            r.push(Seq::<u8>::empty())
        } else {
            r.update(r.len() - 1, r.last().push(s.last()))
        }
    }
}

/// Space or horizontal tab.
pub open spec fn is_ows(b: u8) -> bool {
    b == 32u8 || b == 9u8
}

/// `s` without leading spaces and tabs.
pub open spec fn trim_start(s: Seq<u8>) -> Seq<u8>
    decreases s.len(),
{
    if s.len() > 0 && is_ows(s[0]) {
        trim_start(s.drop_first())
    } else {
        s
    }
}

/// `s` without trailing spaces and tabs.
pub open spec fn trim_end(s: Seq<u8>) -> Seq<u8>
    decreases s.len(),
{
    if s.len() > 0 && is_ows(s.last()) {
        trim_end(s.drop_last())
    } else {
        s
    }
}

/// The lower-cased, trimmed elements of a `Connection` value.
pub open spec fn conn_tokens(v: Seq<u8>) -> Seq<Seq<u8>> {
    split_on(v, 44u8).map_values(|t: Seq<u8>| token_of(t))
}

/// One element of a `Connection` value, trimmed and lower-cased.
pub open spec fn token_of(t: Seq<u8>) -> Seq<u8> {
    lower(trim_end(trim_start(t)))
}

/// The name `connection`.
pub open spec fn connection_name() -> Seq<u8> {
    seq![99u8, 111u8, 110u8, 110u8, 101u8, 99u8, 116u8, 105u8, 111u8, 110u8]
}

/// The name `upgrade`.
pub open spec fn upgrade_name() -> Seq<u8> {
    seq![117u8, 112u8, 103u8, 114u8, 97u8, 100u8, 101u8]
}

/// Names that are hop-by-hop whatever `Connection` says, lower case.
pub open spec fn fixed_hop_names() -> Seq<Seq<u8>> {
    seq![
        connection_name(),
        seq![112u8, 114u8, 111u8, 120u8, 121u8, 45u8] + connection_name(),
        seq![107u8, 101u8, 101u8, 112u8, 45u8, 97u8, 108u8, 105u8, 118u8, 101u8],
        seq![116u8, 101u8],
        seq![116u8, 114u8, 97u8, 105u8, 108u8, 101u8, 114u8],
        seq![
            116u8, 114u8, 97u8, 110u8, 115u8, 102u8, 101u8, 114u8, 45u8,
            101u8, 110u8, 99u8, 111u8, 100u8, 105u8, 110u8, 103u8,
        ],
        upgrade_name(),
    ]
}

/// Every element listed by the `Connection` headers of `hs`, in order.
pub open spec fn listed_tokens(hs: Seq<(Seq<u8>, Seq<u8>)>) -> Seq<Seq<u8>>
    decreases hs.len(),
{
    if hs.len() == 0 {
        Seq::empty()
    } else {
        let init = listed_tokens(hs.drop_last());
        if lower(hs.last().0) == connection_name() {
            init + conn_tokens(hs.last().1)
        } else {
            init
        }
    }
}

/// Whether a header named `name` is hop-by-hop for a request with headers
/// `all`.
pub open spec fn is_hop_by_hop(all: Seq<(Seq<u8>, Seq<u8>)>, name: Seq<u8>) -> bool {
    fixed_hop_names().contains(lower(name)) || listed_tokens(all).contains(lower(name))
}

/// Whether a header survives scrubbing; on an upgrade `Upgrade` stays.
pub open spec fn keeps(all: Seq<(Seq<u8>, Seq<u8>)>, name: Seq<u8>, upgrade: bool) -> bool {
    !is_hop_by_hop(all, name) || (upgrade && lower(name) == upgrade_name())
}

/// The headers of `hs` that survive scrubbing, in order.
pub open spec fn kept(hs: Seq<(Seq<u8>, Seq<u8>)>, all: Seq<(Seq<u8>, Seq<u8>)>, upgrade: bool) -> Seq<
    (Seq<u8>, Seq<u8>),
>
    decreases hs.len(),
{
    if hs.len() == 0 {
        Seq::empty()
    } else {
        let init = kept(hs.drop_last(), all, upgrade);
        if keeps(all, hs.last().0, upgrade) {
            init.push(hs.last())
        } else {
            init
        }
    }
}

/// The headers forwarded upstream: the survivors and, on an upgrade,
/// `Connection: upgrade`.
pub open spec fn scrubbed(all: Seq<(Seq<u8>, Seq<u8>)>, upgrade: bool) -> Seq<(Seq<u8>, Seq<u8>)> {
    if upgrade {
        kept(all, all, upgrade).push((connection_name(), upgrade_name()))
    } else {
        kept(all, all, upgrade)
    }
}

pub proof fn lemma_split_nonempty(s: Seq<u8>, sep: u8)
    ensures
        split_on(s, sep).len() >= 1,
    decreases s.len(),
{
    if s.len() > 0 {
        lemma_split_nonempty(s.drop_last(), sep);
    }
}

proof fn lemma_trim_start_skip(s: Seq<u8>, a: int)
    requires
        0 <= a <= s.len(),
        forall|j: int| 0 <= j < a ==> is_ows(s[j]),
    ensures
        trim_start(s) == trim_start(s.subrange(a, s.len() as int)),
    decreases a,
{
    if a > 0 {
        assert(s.drop_first().subrange(a - 1, s.drop_first().len() as int) =~= s.subrange(
            a,
            s.len() as int,
        ));
        lemma_trim_start_skip(s.drop_first(), a - 1);
    } else {
        assert(s.subrange(0, s.len() as int) =~= s);
    }
}

proof fn lemma_trim_end_skip(s: Seq<u8>, b: int)
    requires
        0 <= b <= s.len(),
        forall|j: int| b <= j < s.len() ==> is_ows(s[j]),
    ensures
        trim_end(s) == trim_end(s.subrange(0, b)),
    decreases s.len() - b,
{
    if b < s.len() {
        assert(s.drop_last().subrange(0, b) =~= s.subrange(0, b));
        lemma_trim_end_skip(s.drop_last(), b);
    } else {
        assert(s.subrange(0, b) =~= s);
    }
}

/// Lower-cased, trimmed `v[a..b]`.
fn trimmed_lower(v: &[u8], a: usize, b: usize) -> (r: Vec<u8>)
    requires
        a <= b <= v@.len(),
    ensures
        r@ == lower(trim_end(trim_start(v@.subrange(a as int, b as int)))),
{
    let ghost seg = v@.subrange(a as int, b as int);
    let mut s = a;
    while s < b && (v[s] == 32u8 || v[s] == 9u8)
        invariant
            a <= s <= b <= v@.len(),
            seg == v@.subrange(a as int, b as int),
            forall|j: int| a <= j < s ==> is_ows(v@[j]),
        decreases b - s,
    {
        s = s + 1;
    }
    proof {
        assert forall|j: int| 0 <= j < s - a implies is_ows(seg[j]) by {
            assert(seg[j] == v@[a + j]);
        }
        lemma_trim_start_skip(seg, s - a);
        assert(seg.subrange(s - a, seg.len() as int) =~= v@.subrange(s as int, b as int));
        if s < b {
            assert(!is_ows(v@.subrange(s as int, b as int)[0]));
        }
    }
    let mut e = b;
    while e > s && (v[e - 1] == 32u8 || v[e - 1] == 9u8)
        invariant
            a <= s <= e <= b <= v@.len(),
            forall|j: int| e <= j < b ==> is_ows(v@[j]),
        decreases e - s,
    {
        e = e - 1;
    }
    proof {
        let mid = v@.subrange(s as int, b as int);
        assert forall|j: int| e - s <= j < mid.len() implies is_ows(mid[j]) by {
            assert(mid[j] == v@[s + j]);
        }
        lemma_trim_end_skip(mid, e - s);
        assert(mid.subrange(0, e - s) =~= v@.subrange(s as int, e as int));
        let fin = v@.subrange(s as int, e as int);
        if e > s {
            assert(!is_ows(fin.last()));
        }
        assert(trim_end(fin) == fin);
    }
    lower_range(v, s, e)
}

/// The lower-cased, trimmed elements of a `Connection` value.
pub fn connection_tokens(v: &[u8]) -> (r: Vec<Vec<u8>>)
    ensures
        bytes_list(r@) == conn_tokens(v@),
{
    let mut r: Vec<Vec<u8>> = Vec::new();
    let ghost mut segs: Seq<Seq<u8>> = Seq::empty();
    let mut start: usize = 0;
    let mut i: usize = 0;
    proof {
        assert(v@.subrange(0, 0) =~= Seq::<u8>::empty());
        assert(segs.push(v@.subrange(0, 0)) =~= seq![Seq::<u8>::empty()]);
    }
    while i < v.len()
        invariant
            start <= i <= v@.len(),
            segs.push(v@.subrange(start as int, i as int)) == split_on(
                v@.subrange(0, i as int),
                44u8,
            ),
            r@.len() == segs.len(),
            forall|j: int| 0 <= j < segs.len() ==> (#[trigger] r@[j])@ == token_of(segs[j]),
        decreases v.len() - i,
    {
        proof {
            let t = v@.subrange(0, i + 1);
            assert(t.drop_last() =~= v@.subrange(0, i as int));
            assert(t.last() == v@[i as int]);
        }
        if v[i] == 44u8 {
            let tok = trimmed_lower(v, start, i);
            r.push(tok);
            proof {
                segs = segs.push(v@.subrange(start as int, i as int));
                assert(v@.subrange(i + 1, i + 1) =~= Seq::<u8>::empty());
            }
            start = i + 1;
        } else {
            proof {
                let old_last = v@.subrange(start as int, i as int);
                assert(old_last.push(v@[i as int]) =~= v@.subrange(start as int, i + 1));
                assert(segs.push(v@.subrange(start as int, i as int)).update(
                    segs.len() as int,
                    v@.subrange(start as int, i + 1),
                ) =~= segs.push(v@.subrange(start as int, i + 1)));
            }
        }
        i = i + 1;
    }
    let tok = trimmed_lower(v, start, v.len());
    r.push(tok);
    proof {
        let last = v@.subrange(start as int, v@.len() as int);
        assert(v@.subrange(0, v@.len() as int) =~= v@);
        let full = segs.push(last);
        assert(bytes_list(r@) =~= conn_tokens(v@)) by {
            assert forall|j: int| 0 <= j < full.len() implies bytes_list(r@)[j] == token_of(
                full[j],
            ) by {
                if j < segs.len() {
                    assert(r@[j]@ == token_of(segs[j]));
                }
            }
        }
    }
    r
}

/// A copy of a byte string.
pub fn copy_bytes(v: &[u8]) -> (r: Vec<u8>)
    ensures
        r@ == v@,
{
    let mut r: Vec<u8> = Vec::new();
    let mut i: usize = 0;
    while i < v.len()
        invariant
            i <= v@.len(),
            r@ == v@.subrange(0, i as int),
        decreases v.len() - i,
    {
        r.push(v[i]);
        i = i + 1;
        assert(r@ =~= v@.subrange(0, i as int));
    }
    assert(v@.subrange(0, v@.len() as int) =~= v@);
    r
}

impl Header {
    /// A header from its name and value.
    pub fn new(name: &[u8], value: &[u8]) -> (r: Header)
        ensures
            r@ == (name@, value@),
    {
        Header { name: copy_bytes(name), value: copy_bytes(value) }
    }

    /// A copy of this header.
    pub fn duplicate(&self) -> (r: Header)
        ensures
            r@ == self@,
    {
        Header::new(self.name.as_slice(), self.value.as_slice())
    }
}

/// The bytes of `connection`.
fn connection_bytes() -> (r: Vec<u8>)
    ensures
        r@ == connection_name(),
{
    let r: Vec<u8> = vec![99u8, 111u8, 110u8, 110u8, 101u8, 99u8, 116u8, 105u8, 111u8, 110u8];
    assert(r@ =~= connection_name());
    r
}

/// The bytes of `upgrade`.
fn upgrade_bytes() -> (r: Vec<u8>)
    ensures
        r@ == upgrade_name(),
{
    let r: Vec<u8> = vec![117u8, 112u8, 103u8, 114u8, 97u8, 100u8, 101u8];
    assert(r@ =~= upgrade_name());
    r
}

/// The names that are always hop-by-hop, lower case.
fn fixed_hop_list() -> (r: Vec<Vec<u8>>)
    ensures
        bytes_list(r@) == fixed_hop_names(),
{
    let mut proxy_conn: Vec<u8> = vec![112u8, 114u8, 111u8, 120u8, 121u8, 45u8];
    let mut c = connection_bytes();
    proxy_conn.append(&mut c);
    let r: Vec<Vec<u8>> = vec![
        connection_bytes(),
        proxy_conn,
        vec![107u8, 101u8, 101u8, 112u8, 45u8, 97u8, 108u8, 105u8, 118u8, 101u8],
        vec![116u8, 101u8],
        vec![116u8, 114u8, 97u8, 105u8, 108u8, 101u8, 114u8],
        vec![
            116u8, 114u8, 97u8, 110u8, 115u8, 102u8, 101u8, 114u8, 45u8,
            101u8, 110u8, 99u8, 111u8, 100u8, 105u8, 110u8, 103u8,
        ],
        upgrade_bytes(),
    ];
    proof {
        let f = fixed_hop_names();
        assert(r@[1]@ =~= f[1]);
        assert(r@[2]@ =~= f[2]);
        assert(r@[3]@ =~= f[3]);
        assert(r@[4]@ =~= f[4]);
        assert(r@[5]@ =~= f[5]);
        assert(bytes_list(r@) =~= f);
    }
    r
}

/// Whether `list` holds `x`.
fn contains_bytes(list: &Vec<Vec<u8>>, x: &[u8]) -> (r: bool)
    ensures
        r == bytes_list(list@).contains(x@),
{
    let mut i: usize = 0;
    while i < list.len()
        invariant
            i <= list@.len(),
            forall|j: int| 0 <= j < i ==> (#[trigger] list@[j])@ != x@,
        decreases list.len() - i,
    {
        if bytes_eq(list[i].as_slice(), x) {
            assert(bytes_list(list@)[i as int] == x@);
            return true;
        }
        i = i + 1;
    }
    proof {
        if bytes_list(list@).contains(x@) {
            let j = choose|j: int| 0 <= j < bytes_list(list@).len() && bytes_list(list@)[j] == x@;
            assert(list@[j]@ == x@);
        }
    }
    false
}

/// Every element listed by the `Connection` headers of `headers`.
pub fn listed_by_connection(headers: &Vec<Header>) -> (r: Vec<Vec<u8>>)
    ensures
        bytes_list(r@) == listed_tokens(headers_view(headers@)),
{
    let ghost hv = headers_view(headers@);
    let conn = connection_bytes();
    let mut r: Vec<Vec<u8>> = Vec::new();
    let mut i: usize = 0;
    proof {
        assert(hv.subrange(0, 0) =~= Seq::<(Seq<u8>, Seq<u8>)>::empty());
        assert(bytes_list(r@) =~= Seq::<Seq<u8>>::empty());
    }
    while i < headers.len()
        invariant
            hv == headers_view(headers@),
            conn@ == connection_name(),
            i <= headers@.len(),
            bytes_list(r@) == listed_tokens(hv.subrange(0, i as int)),
        decreases headers.len() - i,
    {
        let h = &headers[i];
        let lname = lower_range(h.name.as_slice(), 0, h.name.len());
        proof {
            let t = hv.subrange(0, i + 1);
            assert(t.drop_last() =~= hv.subrange(0, i as int));
            assert(t.last() == h@);
            assert(h.name@.subrange(0, h.name@.len() as int) =~= h.name@);
        }
        if bytes_eq(lname.as_slice(), conn.as_slice()) {
            let mut toks = connection_tokens(h.value.as_slice());
            let ghost before = r@;
            let ghost added = toks@;
            r.append(&mut toks);
            assert(bytes_list(r@) =~= bytes_list(before) + bytes_list(added));
        }
        i = i + 1;
    }
    assert(hv.subrange(0, headers@.len() as int) =~= hv);
    r
}

/// Whether the request asks to switch protocols: it has an `Upgrade`
/// header and its `Connection` headers list `upgrade`.
pub open spec fn requests_upgrade(all: Seq<(Seq<u8>, Seq<u8>)>) -> bool {
    (exists|k: int| 0 <= k < all.len() && lower((#[trigger] all[k]).0) == upgrade_name())
        && listed_tokens(all).contains(upgrade_name())
}

/// Whether the request asks to switch protocols.
pub fn is_upgrade_request(headers: &Vec<Header>) -> (r: bool)
    ensures
        r == requests_upgrade(headers_view(headers@)),
{
    let ghost hv = headers_view(headers@);
    let up = upgrade_bytes();
    let mut found = false;
    let mut i: usize = 0;
    while i < headers.len()
        invariant
            hv == headers_view(headers@),
            up@ == upgrade_name(),
            i <= headers@.len(),
            found <==> exists|k: int| 0 <= k < i && lower((#[trigger] hv[k]).0) == upgrade_name(),
        decreases headers.len() - i,
    {
        let h = &headers[i];
        let lname = lower_range(h.name.as_slice(), 0, h.name.len());
        assert(h.name@.subrange(0, h.name@.len() as int) =~= h.name@);
        assert(hv[i as int] == h@);
        if bytes_eq(lname.as_slice(), up.as_slice()) {
            found = true;
        }
        i = i + 1;
    }
    if !found {
        return false;
    }
    let listed = listed_by_connection(headers);
    contains_bytes(&listed, up.as_slice())
}

/// The headers to forward upstream: every hop-by-hop header removed (the
/// fixed ones and those that a `Connection` header lists), except that an
/// upgrade keeps `Upgrade` and gets `Connection: upgrade`.
pub fn scrub_hop_by_hop(headers: &Vec<Header>, upgrade: bool) -> (r: Vec<Header>)
    ensures
        headers_view(r@) == scrubbed(headers_view(headers@), upgrade),
{
    let ghost hv = headers_view(headers@);
    let listed = listed_by_connection(headers);
    let fixed = fixed_hop_list();
    let up = upgrade_bytes();
    let mut r: Vec<Header> = Vec::new();
    let mut i: usize = 0;
    proof {
        assert(hv.subrange(0, 0) =~= Seq::<(Seq<u8>, Seq<u8>)>::empty());
        assert(headers_view(r@) =~= Seq::<(Seq<u8>, Seq<u8>)>::empty());
    }
    while i < headers.len()
        invariant
            hv == headers_view(headers@),
            bytes_list(listed@) == listed_tokens(hv),
            bytes_list(fixed@) == fixed_hop_names(),
            up@ == upgrade_name(),
            i <= headers@.len(),
            headers_view(r@) == kept(hv.subrange(0, i as int), hv, upgrade),
        decreases headers.len() - i,
    {
        let h = &headers[i];
        let lname = lower_range(h.name.as_slice(), 0, h.name.len());
        proof {
            let t = hv.subrange(0, i + 1);
            assert(t.drop_last() =~= hv.subrange(0, i as int));
            assert(t.last() == h@);
            assert(h.name@.subrange(0, h.name@.len() as int) =~= h.name@);
        }
        let hop = contains_bytes(&fixed, lname.as_slice()) || contains_bytes(
            &listed,
            lname.as_slice(),
        );
        let keep = !hop || (upgrade && bytes_eq(lname.as_slice(), up.as_slice()));
        if keep {
            let ghost before = r@;
            r.push(h.duplicate());
            assert(headers_view(r@) =~= headers_view(before).push(h@));
        }
        i = i + 1;
    }
    assert(hv.subrange(0, headers@.len() as int) =~= hv);
    if upgrade {
        let c = connection_bytes();
        let ghost before = r@;
        r.push(Header { name: c, value: up });
        assert(headers_view(r@) =~= headers_view(before).push((connection_name(), upgrade_name())));
    }
    r
}

proof fn lemma_kept_all_keep(hs: Seq<(Seq<u8>, Seq<u8>)>, all: Seq<(Seq<u8>, Seq<u8>)>, upgrade: bool)
    ensures
        forall|k: int|
            0 <= k < kept(hs, all, upgrade).len() ==> keeps(
                all,
                (#[trigger] kept(hs, all, upgrade)[k]).0,
                upgrade,
            ),
    decreases hs.len(),
{
    if hs.len() > 0 {
        lemma_kept_all_keep(hs.drop_last(), all, upgrade);
        let init = kept(hs.drop_last(), all, upgrade);
        let cur = kept(hs, all, upgrade);
        assert forall|k: int| 0 <= k < cur.len() implies keeps(all, (#[trigger] cur[k]).0, upgrade) by {
            if k < init.len() {
                assert(cur[k] == init[k]);
            }
        }
    }
}

/// No header that the request's `Connection` headers list reaches the
/// upstream, except, on an upgrade, `Upgrade` itself and the
/// `Connection: upgrade` that the proxy adds.
pub proof fn lemma_listed_headers_absent(all: Seq<(Seq<u8>, Seq<u8>)>, upgrade: bool)
    ensures
        forall|k: int|
            0 <= k < scrubbed(all, upgrade).len() && listed_tokens(all).contains(
                lower((#[trigger] scrubbed(all, upgrade)[k]).0),
            ) ==> upgrade && (lower(scrubbed(all, upgrade)[k].0) == upgrade_name() || scrubbed(
                all,
                upgrade,
            )[k] == (connection_name(), upgrade_name())),
        !upgrade ==> forall|k: int|
            0 <= k < scrubbed(all, upgrade).len() ==> !fixed_hop_names().contains(
                lower((#[trigger] scrubbed(all, upgrade)[k]).0),
            ),
{
    lemma_kept_all_keep(all, all, upgrade);
    let kp = kept(all, all, upgrade);
    assert forall|k: int|
        0 <= k < scrubbed(all, upgrade).len() && listed_tokens(all).contains(
            lower((#[trigger] scrubbed(all, upgrade)[k]).0),
        ) implies upgrade && (lower(scrubbed(all, upgrade)[k].0) == upgrade_name() || scrubbed(
        all,
        upgrade,
    )[k] == (connection_name(), upgrade_name())) by {
        if k < kp.len() {
            assert(scrubbed(all, upgrade)[k] == kp[k]);
            assert(keeps(all, kp[k].0, upgrade));
        }
    }
    if !upgrade {
        assert forall|k: int| 0 <= k < scrubbed(all, upgrade).len() implies !fixed_hop_names().contains(
            lower((#[trigger] scrubbed(all, upgrade)[k]).0),
        ) by {
            assert(keeps(all, kp[k].0, upgrade));
        }
    }
}

/// A copy of `v[a..b]`.
pub fn copy_range(v: &[u8], a: usize, b: usize) -> (r: Vec<u8>)
    requires
        a <= b <= v@.len(),
    ensures
        r@ == v@.subrange(a as int, b as int),
{
    let mut r: Vec<u8> = Vec::new();
    let mut i: usize = a;
    while i < b
        invariant
            a <= i <= b <= v@.len(),
            r@ == v@.subrange(a as int, i as int),
        decreases b - i,
    {
        r.push(v[i]);
        i = i + 1;
        assert(r@ =~= v@.subrange(a as int, i as int));
    }
    r
}

/// `v` split at every `sep`.
pub fn split_bytes(v: &[u8], sep: u8) -> (r: Vec<Vec<u8>>)
    ensures
        bytes_list(r@) == split_on(v@, sep),
{
    let mut r: Vec<Vec<u8>> = Vec::new();
    let ghost mut segs: Seq<Seq<u8>> = Seq::empty();
    let mut start: usize = 0;
    let mut i: usize = 0;
    proof {
        assert(v@.subrange(0, 0) =~= Seq::<u8>::empty());
        assert(segs.push(v@.subrange(0, 0)) =~= seq![Seq::<u8>::empty()]);
    }
    while i < v.len()
        invariant
            start <= i <= v@.len(),
            segs.push(v@.subrange(start as int, i as int)) == split_on(v@.subrange(0, i as int), sep),
            bytes_list(r@) == segs,
        decreases v.len() - i,
    {
        proof {
            let t = v@.subrange(0, i + 1);
            assert(t.drop_last() =~= v@.subrange(0, i as int));
            assert(t.last() == v@[i as int]);
        }
        if v[i] == sep {
            let piece = copy_range(v, start, i);
            let ghost before = r@;
            r.push(piece);
            proof {
                segs = segs.push(v@.subrange(start as int, i as int));
                assert(bytes_list(r@) =~= bytes_list(before).push(piece@));
                assert(v@.subrange(i + 1, i + 1) =~= Seq::<u8>::empty());
            }
            start = i + 1;
        } else {
            proof {
                let old_last = v@.subrange(start as int, i as int);
                assert(old_last.push(v@[i as int]) =~= v@.subrange(start as int, i + 1));
                assert(segs.push(v@.subrange(start as int, i as int)).update(
                    segs.len() as int,
                    v@.subrange(start as int, i + 1),
                ) =~= segs.push(v@.subrange(start as int, i + 1)));
            }
        }
        i = i + 1;
    }
    let piece = copy_range(v, start, v.len());
    let ghost before = r@;
    r.push(piece);
    proof {
        assert(v@.subrange(0, v@.len() as int) =~= v@);
        assert(bytes_list(r@) =~= bytes_list(before).push(piece@));
    }
    r
}

/// Splitting at a separator distributes over a join at that separator.
pub proof fn lemma_split_join(a: Seq<u8>, b: Seq<u8>, sep: u8)
    ensures
        split_on(a + seq![sep] + b, sep) == split_on(a, sep) + split_on(b, sep),
    decreases b.len(),
{
    let x = a + seq![sep] + b;
    if b.len() == 0 {
        assert(x.drop_last() =~= a);
        assert(split_on(a, sep) + split_on(b, sep) =~= split_on(a, sep).push(Seq::<u8>::empty()));
    } else {
        let b0 = b.drop_last();
        assert(x.drop_last() =~= a + seq![sep] + b0);
        lemma_split_join(a, b0, sep);
        lemma_split_nonempty(b0, sep);
        lemma_split_nonempty(a, sep);
        let sa = split_on(a, sep);
        let sb = split_on(b0, sep);
        if b.last() == sep {
            assert((sa + sb).push(Seq::<u8>::empty()) =~= sa + sb.push(Seq::<u8>::empty()));
        } else {
            assert((sa + sb).update(
                (sa + sb).len() - 1,
                (sa + sb).last().push(b.last()),
            ) =~= sa + sb.update(sb.len() - 1, sb.last().push(b.last())));
        }
    }
}

/// A string without the separator is one piece.
pub proof fn lemma_split_single(a: Seq<u8>, sep: u8)
    requires
        forall|i: int| 0 <= i < a.len() ==> a[i] != sep,
    ensures
        split_on(a, sep) == seq![a],
    decreases a.len(),
{
    if a.len() > 0 {
        lemma_split_single(a.drop_last(), sep);
        assert(a.drop_last().push(a.last()) =~= a);
        assert(seq![a.drop_last()].update(0, a) =~= seq![a]);
    } else {
        assert(a =~= Seq::<u8>::empty());
    }
}

} // verus!
