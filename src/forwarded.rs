//! The `Forwarded` element (RFC 7239) this proxy appends to requests.
use vstd::prelude::*;
use crate::headers::{
    bytes_list, copy_bytes, lemma_split_join, lemma_split_single,
    split_bytes, split_on,
};
use crate::names::{bytes_eq, lower, lower_range};

verus! {

/// A token character of RFC 7230.
pub open spec fn is_tchar(b: u8) -> bool {
    (48u8 <= b <= 57u8) || (65u8 <= b <= 90u8) || (97u8 <= b <= 122u8) || b == 33u8 || b == 35u8
        || b == 36u8 || b == 37u8 || b == 38u8 || b == 39u8 || b == 42u8 || b == 43u8 || b
        == 45u8 || b == 46u8 || b == 94u8 || b == 95u8 || b == 96u8 || b == 124u8 || b == 126u8
}

/// Whether `v` can stand bare as a parameter value: a non-empty token.
pub open spec fn is_token(v: Seq<u8>) -> bool {
    v.len() > 0 && forall|i: int| 0 <= i < v.len() ==> is_tchar(#[trigger] v[i])
}

/// A parameter value as written: bare when it is a token, else quoted.
pub open spec fn quoted(v: Seq<u8>) -> Seq<u8> {
    if is_token(v) {
        v
    } else {
        seq![34u8] + v + seq![34u8]
    }
}

/// `key=value` with the value quoted as needed.
pub open spec fn pair(key: Seq<u8>, v: Seq<u8>) -> Seq<u8> {
    key + seq![61u8] + quoted(v)
}

/// The key `for`.
pub open spec fn key_for() -> Seq<u8> {
    seq![102u8, 111u8, 114u8]
}

/// The key `proto`.
pub open spec fn key_proto() -> Seq<u8> {
    seq![112u8, 114u8, 111u8, 116u8, 111u8]
}

/// The key `host`.
pub open spec fn key_host() -> Seq<u8> {
    seq![104u8, 111u8, 115u8, 116u8]
}

/// The key `by`.
pub open spec fn key_by() -> Seq<u8> {
    seq![98u8, 121u8]
}

/// The element `for=..;proto=..;host=..;by=..`.
pub open spec fn element(f: Seq<u8>, proto: Seq<u8>, host: Seq<u8>, by: Seq<u8>) -> Seq<u8> {
    pair(key_for(), f) + seq![59u8] + pair(key_proto(), proto) + seq![59u8] + pair(key_host(), host)
        + seq![59u8] + pair(key_by(), by)
}

/// Whether byte `b` is a token character.
pub fn tchar(b: u8) -> (r: bool)
    ensures
        r == is_tchar(b),
{
    (48u8 <= b && b <= 57u8) || (65u8 <= b && b <= 90u8) || (97u8 <= b && b <= 122u8) || b == 33u8
        || b == 35u8 || b == 36u8 || b == 37u8 || b == 38u8 || b == 39u8 || b == 42u8 || b == 43u8
        || b == 45u8 || b == 46u8 || b == 94u8 || b == 95u8 || b == 96u8 || b == 124u8 || b
        == 126u8
}

/// Whether `v` is a non-empty token.
pub fn token(v: &[u8]) -> (r: bool)
    ensures
        r == is_token(v@),
{
    if v.len() == 0 {
        return false;
    }
    let mut i: usize = 0;
    while i < v.len()
        invariant
            i <= v@.len(),
            forall|j: int| 0 <= j < i ==> is_tchar(#[trigger] v@[j]),
        decreases v.len() - i,
    {
        if !tchar(v[i]) {
            return false;
        }
        i = i + 1;
    }
    true
}

/// Appends `v` to `out`.
fn push_all(out: &mut Vec<u8>, v: &[u8])
    ensures
        final(out)@ == old(out)@ + v@,
{
    let mut i: usize = 0;
    while i < v.len()
        invariant
            i <= v@.len(),
            out@ == old(out)@ + v@.subrange(0, i as int),
        decreases v.len() - i,
    {
        out.push(v[i]);
        i = i + 1;
        assert(out@ =~= old(out)@ + v@.subrange(0, i as int));
    }
    assert(v@.subrange(0, v@.len() as int) =~= v@);
}

/// Appends `key=value` to `out`, quoting the value unless it is a token.
fn push_pair(out: &mut Vec<u8>, key: &[u8], v: &[u8])
    ensures
        final(out)@ == old(out)@ + pair(key@, v@),
{
    push_all(out, key);
    out.push(61u8);
    if token(v) {
        push_all(out, v);
    } else {
        out.push(34u8);
        push_all(out, v);
        out.push(34u8);
    }
    assert(final(out)@ =~= old(out)@ + pair(key@, v@));
}

/// The `Forwarded` element for a request from `for_node`, received over
/// `proto` for `host` by the listener `by`.
pub fn forwarded_element(for_node: &[u8], proto: &[u8], host: &[u8], by: &[u8]) -> (r: Vec<u8>)
    ensures
        r@ == element(for_node@, proto@, host@, by@),
{
    let kf: Vec<u8> = vec![102u8, 111u8, 114u8];
    let kp: Vec<u8> = vec![112u8, 114u8, 111u8, 116u8, 111u8];
    let kh: Vec<u8> = vec![104u8, 111u8, 115u8, 116u8];
    let kb: Vec<u8> = vec![98u8, 121u8];
    assert(kf@ =~= key_for());
    assert(kp@ =~= key_proto());
    assert(kh@ =~= key_host());
    assert(kb@ =~= key_by());
    let mut out: Vec<u8> = Vec::new();
    push_pair(&mut out, kf.as_slice(), for_node);
    out.push(59u8);
    push_pair(&mut out, kp.as_slice(), proto);
    out.push(59u8);
    push_pair(&mut out, kh.as_slice(), host);
    out.push(59u8);
    push_pair(&mut out, kb.as_slice(), by);
    assert(out@ =~= element(for_node@, proto@, host@, by@));
    out
}

/// The four parameters of a parsed element.
#[derive(Debug, Clone, PartialEq, Eq)]
pub struct ForwardedFields {
    pub for_node: Vec<u8>,
    pub proto: Vec<u8>,
    pub host: Vec<u8>,
    pub by: Vec<u8>,
}

/// No double quote or backslash in `s`.
pub open spec fn no_dquote(s: Seq<u8>) -> bool {
    forall|i: int| 0 <= i < s.len() ==> s[i] != 34u8 && s[i] != 92u8
}

/// A value written as a token or as a quoted string without escapes.
pub open spec fn unquote(v: Seq<u8>) -> Option<Seq<u8>> {
    if v.len() >= 2 && v[0] == 34u8 && v.last() == 34u8 {
        let inner = v.subrange(1, v.len() - 1);
        if no_dquote(inner) {
            Some(inner)
        } else {
            None
        }
    } else if is_token(v) {
        Some(v)
    } else {
        None
    }
}

/// Position of a lower-case parameter name among `for`, `proto`, `host`,
/// `by`; 4 for any other name.
pub open spec fn key_index(k: Seq<u8>) -> nat {
    if k == key_for() {
        0
    } else if k == key_proto() {
        1
    } else if k == key_host() {
        2
    } else if k == key_by() {
        3
    } else {
        4
    }
}

/// A `name=value` pair: the name's position and the value.
pub open spec fn parse_pair(p: Seq<u8>) -> Option<(nat, Seq<u8>)> {
    let kv = split_on(p, 61u8);
    if kv.len() == 2 && is_token(kv[0]) {
        match unquote(kv[1]) {
            Some(v) => Some((key_index(lower(kv[0])), v)),
            None => None,
        }
    } else {
        None
    }
}

/// The parameters of a list of pairs, by position; `None` when a pair is
/// malformed or a parameter repeats. Other parameters are ignored.
pub open spec fn parse_pairs(ps: Seq<Seq<u8>>) -> Option<Seq<Option<Seq<u8>>>>
    decreases ps.len(),
{
    if ps.len() == 0 {
        Some(seq![None, None, None, None])
    } else {
        match parse_pairs(ps.drop_last()) {
            None => None,
            Some(st) => match parse_pair(ps.last()) {
                None => None,
                Some(kv) => if kv.0 < 4 {
                    if st[kv.0 as int] is Some {
                        None
                    } else {
                        Some(st.update(kv.0 as int, Some(kv.1)))
                    }
                } else {
                    Some(st)
                },
            },
        }
    }
}

/// A `Forwarded` element with all four parameters, read per RFC 7239:
/// pairs separated by `;`, names without regard to case, each at most once.
pub open spec fn parse_element(s: Seq<u8>) -> Option<(Seq<u8>, Seq<u8>, Seq<u8>, Seq<u8>)> {
    match parse_pairs(split_on(s, 59u8)) {
        Some(st) => if st[0] is Some && st[1] is Some && st[2] is Some && st[3] is Some {
            Some((st[0]->Some_0, st[1]->Some_0, st[2]->Some_0, st[3]->Some_0))
        } else {
            None
        },
        None => None,
    }
}

/// A value this proxy can write and read back: no quote, backslash,
/// semicolon or equals sign.
pub open spec fn value_ok(v: Seq<u8>) -> bool {
    forall|i: int| 0 <= i < v.len() ==> v[i] != 34u8 && v[i] != 92u8 && v[i] != 59u8 && v[i] != 61u8
}

/// Optional vectors as optional sequences.
pub open spec fn opt_list(v: Seq<Option<Vec<u8>>>) -> Seq<Option<Seq<u8>>> {
    v.map_values(|o: Option<Vec<u8>>| match o {
        Some(b) => Some(b@),
        None => None,
    })
}

/// Reads a quoted or bare value.
fn unquote_value(v: &[u8]) -> (r: Option<Vec<u8>>)
    ensures
        r matches Some(x) ==> unquote(v@) == Some(x@),
        r is None ==> unquote(v@) is None,
{
    if v.len() >= 2 && v[0] == 34u8 && v[v.len() - 1] == 34u8 {
        let ghost inner = v@.subrange(1, v@.len() - 1);
        let mut i: usize = 1;
        while i < v.len() - 1
            invariant
                v@.len() >= 2,
                1 <= i <= v@.len() - 1,
                inner == v@.subrange(1, v@.len() - 1),
                forall|j: int| 0 <= j < i - 1 ==> inner[j] != 34u8 && inner[j] != 92u8,
            decreases v.len() - i,
        {
            if v[i] == 34u8 || v[i] == 92u8 {
                assert(inner[i - 1] == v@[i as int]);
                return None;
            }
            assert(inner[i - 1] == v@[i as int]);
            i = i + 1;
        }
        let mut out: Vec<u8> = Vec::new();
        let mut k: usize = 1;
        while k < v.len() - 1
            invariant
                v@.len() >= 2,
                1 <= k <= v@.len() - 1,
                out@ == v@.subrange(1, k as int),
            decreases v.len() - k,
        {
            out.push(v[k]);
            k = k + 1;
            assert(out@ =~= v@.subrange(1, k as int));
        }
        Some(out)
    } else if token(v) {
        Some(copy_bytes(v))
    } else {
        None
    }
}

/// Position of a lower-case parameter name.
fn key_position(k: &[u8]) -> (r: usize)
    ensures
        r == key_index(k@),
{
    let kf: Vec<u8> = vec![102u8, 111u8, 114u8];
    let kp: Vec<u8> = vec![112u8, 114u8, 111u8, 116u8, 111u8];
    let kh: Vec<u8> = vec![104u8, 111u8, 115u8, 116u8];
    let kb: Vec<u8> = vec![98u8, 121u8];
    assert(kf@ =~= key_for());
    assert(kp@ =~= key_proto());
    assert(kh@ =~= key_host());
    assert(kb@ =~= key_by());
    if bytes_eq(k, kf.as_slice()) {
        0
    } else if bytes_eq(k, kp.as_slice()) {
        1
    } else if bytes_eq(k, kh.as_slice()) {
        2
    } else if bytes_eq(k, kb.as_slice()) {
        3
    } else {
        4
    }
}

/// Reads one `name=value` pair.
fn read_pair(p: &[u8]) -> (r: Option<(usize, Vec<u8>)>)
    ensures
        r matches Some(kv) ==> parse_pair(p@) == Some((kv.0 as nat, kv.1@)),
        r is None ==> parse_pair(p@) is None,
{
    let kv = split_bytes(p, 61u8);
    if kv.len() != 2 {
        return None;
    }
    assert(bytes_list(kv@)[0] == kv@[0]@);
    assert(bytes_list(kv@)[1] == kv@[1]@);
    if !token(kv[0].as_slice()) {
        return None;
    }
    match unquote_value(kv[1].as_slice()) {
        Some(v) => {
            let lk = lower_range(kv[0].as_slice(), 0, kv[0].len());
            assert(kv@[0]@.subrange(0, kv@[0]@.len() as int) =~= kv@[0]@);
            Some((key_position(lk.as_slice()), v))
        },
        None => None,
    }
}

/// A copy of a present value.
fn take_value(o: &Option<Vec<u8>>) -> (r: Vec<u8>)
    requires
        o is Some,
    ensures
        r@ == o->Some_0@,
{
    match o {
        Some(v) => copy_bytes(v.as_slice()),
        None => Vec::new(),
    }
}

proof fn lemma_parse_pairs_fails_on(ps: Seq<Seq<u8>>, j: int)
    requires
        0 <= j <= ps.len(),
        parse_pairs(ps.subrange(0, j)) is None,
    ensures
        parse_pairs(ps) is None,
    decreases ps.len() - j,
{
    if j == ps.len() {
        assert(ps.subrange(0, j) =~= ps);
    } else {
        let d = ps.drop_last();
        assert(d.subrange(0, j) =~= ps.subrange(0, j));
        lemma_parse_pairs_fails_on(d, j);
    }
}

/// Reads a `Forwarded` element carrying `for`, `proto`, `host` and `by`;
/// `None` when it is malformed, repeats a parameter or lacks one.
pub fn parse_forwarded_element(s: &[u8]) -> (r: Option<ForwardedFields>)
    ensures
        r matches Some(f) ==> parse_element(s@) == Some((f.for_node@, f.proto@, f.host@, f.by@)),
        r is None ==> parse_element(s@) is None,
{
    let pairs = split_bytes(s, 59u8);
    let ghost ps = bytes_list(pairs@);
    let mut st: Vec<Option<Vec<u8>>> = vec![None, None, None, None];
    assert(opt_list(st@) =~= seq![None, None, None, None]);
    assert(ps.subrange(0, 0) =~= Seq::<Seq<u8>>::empty());
    let mut i: usize = 0;
    while i < pairs.len()
        invariant
            ps == bytes_list(pairs@),
            ps == split_on(s@, 59u8),
            i <= pairs@.len(),
            st@.len() == 4,
            parse_pairs(ps.subrange(0, i as int)) == Some(opt_list(st@)),
        decreases pairs.len() - i,
    {
        proof {
            let t = ps.subrange(0, i + 1);
            assert(t.drop_last() =~= ps.subrange(0, i as int));
            assert(t.last() == pairs@[i as int]@);
        }
        match read_pair(pairs[i].as_slice()) {
            None => {
                proof {
                    lemma_parse_pairs_fails_on(ps, i + 1);
                }
                return None;
            },
            Some(kv) => {
                let (k, v) = kv;
                if k < 4 {
                    assert(opt_list(st@)[k as int] == match st@[k as int] {
                        Some(b) => Some(b@),
                        None => None::<Seq<u8>>,
                    });
                    if st[k].is_some() {
                        proof {
                            lemma_parse_pairs_fails_on(ps, i + 1);
                        }
                        return None;
                    }
                    let ghost vv = v@;
                    let ghost before = opt_list(st@);
                    st.set(k, Some(v));
                    assert(opt_list(st@) =~= before.update(k as int, Some(vv)));
                }
            },
        }
        i = i + 1;
    }
    assert(ps.subrange(0, pairs@.len() as int) =~= ps);
    let ghost fin = opt_list(st@);
    assert(fin[0] == match st@[0] {
        Some(b) => Some(b@),
        None => None::<Seq<u8>>,
    });
    assert(fin[1] == match st@[1] {
        Some(b) => Some(b@),
        None => None::<Seq<u8>>,
    });
    assert(fin[2] == match st@[2] {
        Some(b) => Some(b@),
        None => None::<Seq<u8>>,
    });
    assert(fin[3] == match st@[3] {
        Some(b) => Some(b@),
        None => None::<Seq<u8>>,
    });
    if st[0].is_some() && st[1].is_some() && st[2].is_some() && st[3].is_some() {
        Some(
            ForwardedFields {
                for_node: take_value(&st[0]),
                proto: take_value(&st[1]),
                host: take_value(&st[2]),
                by: take_value(&st[3]),
            },
        )
    } else {
        None
    }
}

/// A non-empty run of lower-case ASCII letters.
pub open spec fn lower_alpha(k: Seq<u8>) -> bool {
    k.len() > 0 && forall|i: int| 0 <= i < k.len() ==> 97u8 <= #[trigger] k[i] <= 122u8
}

proof fn lemma_key_facts(k: Seq<u8>)
    requires
        lower_alpha(k),
    ensures
        is_token(k),
        lower(k) == k,
        forall|i: int| 0 <= i < k.len() ==> k[i] != 59u8 && k[i] != 61u8,
{
    assert(lower(k) =~= k);
}

proof fn lemma_keys_alpha()
    ensures
        lower_alpha(key_for()),
        lower_alpha(key_proto()),
        lower_alpha(key_host()),
        lower_alpha(key_by()),
        key_index(key_for()) == 0,
        key_index(key_proto()) == 1,
        key_index(key_host()) == 2,
        key_index(key_by()) == 3,
{
    assert(key_for().len() == 3);
    assert(key_proto().len() == 5);
    assert(key_host().len() == 4);
    assert(key_by().len() == 2);
}

proof fn lemma_pair_reads_back(k: Seq<u8>, v: Seq<u8>)
    requires
        lower_alpha(k),
        value_ok(v),
    ensures
        forall|i: int| 0 <= i < pair(k, v).len() ==> pair(k, v)[i] != 59u8,
        parse_pair(pair(k, v)) == Some((key_index(k), v)),
{
    lemma_key_facts(k);
    let q = quoted(v);
    assert forall|i: int| 0 <= i < q.len() implies q[i] != 59u8 && q[i] != 61u8 by {
        if !is_token(v) && 0 < i < q.len() - 1 {
            assert(q[i] == v[i - 1]);
        }
    }
    let pr = pair(k, v);
    assert forall|i: int| 0 <= i < pr.len() implies pr[i] != 59u8 by {
        if i < k.len() {
            assert(pr[i] == k[i]);
        } else if i > k.len() {
            assert(pr[i] == q[i - k.len() - 1]);
        }
    }
    lemma_split_join(k, q, 61u8);
    lemma_split_single(k, 61u8);
    lemma_split_single(q, 61u8);
    assert(split_on(pr, 61u8) =~= seq![k, q]);
    if is_token(v) {
        if v.len() >= 2 && v[0] == 34u8 {
            assert(is_tchar(v[0]));
        }
    } else {
        assert(q.subrange(1, q.len() - 1) =~= v);
    }
    assert(unquote(q) == Some(v));
}

/// An element written by this proxy reads back, under RFC 7239, to the
/// same four parameters.
pub proof fn lemma_forwarded_round_trip(f: Seq<u8>, p: Seq<u8>, h: Seq<u8>, b: Seq<u8>)
    requires
        value_ok(f),
        value_ok(p),
        value_ok(h),
        value_ok(b),
    ensures
        parse_element(element(f, p, h, b)) == Some((f, p, h, b)),
{
    lemma_keys_alpha();
    let pf = pair(key_for(), f);
    let pp = pair(key_proto(), p);
    let ph = pair(key_host(), h);
    let pb = pair(key_by(), b);
    lemma_pair_reads_back(key_for(), f);
    lemma_pair_reads_back(key_proto(), p);
    lemma_pair_reads_back(key_host(), h);
    lemma_pair_reads_back(key_by(), b);
    let sep = seq![59u8];
    let a2 = pf + sep + pp;
    let a3 = a2 + sep + ph;
    let e = a3 + sep + pb;
    assert(e == element(f, p, h, b));
    lemma_split_single(pf, 59u8);
    lemma_split_single(pp, 59u8);
    lemma_split_single(ph, 59u8);
    lemma_split_single(pb, 59u8);
    lemma_split_join(pf, pp, 59u8);
    lemma_split_join(a2, ph, 59u8);
    lemma_split_join(a3, pb, 59u8);
    let ps = seq![pf, pp, ph, pb];
    assert(split_on(e, 59u8) =~= ps);
    let n: Option<Seq<u8>> = None;
    assert(ps.drop_last() =~= seq![pf, pp, ph]);
    assert(seq![pf, pp, ph].drop_last() =~= seq![pf, pp]);
    assert(seq![pf, pp].drop_last() =~= seq![pf]);
    assert(seq![pf].drop_last() =~= Seq::<Seq<u8>>::empty());
    let s0 = seq![n, n, n, n];
    assert(parse_pairs(Seq::<Seq<u8>>::empty()) == Some(s0));
    let s1 = s0.update(0, Some(f));
    assert(parse_pairs(seq![pf]) == Some(s1));
    let s2 = s1.update(1, Some(p));
    assert(parse_pairs(seq![pf, pp]) == Some(s2));
    let s3 = s2.update(2, Some(h));
    assert(parse_pairs(seq![pf, pp, ph]) == Some(s3));
    let s4 = s3.update(3, Some(b));
    assert(parse_pairs(ps) == Some(s4));
}

} // verus!
