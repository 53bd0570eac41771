//! Host names as bytes: normalisation and pattern matching.
//!
//! A pattern is either an exact name (`a.example`) or a wildcard
//! (`*.b.example`) that matches any name ending in `.b.example` with at least
//! one byte before the dot. Among several matching patterns the most specific
//! wins: an exact match beats every wildcard, a longer wildcard suffix beats
//! a shorter one, and equal candidates are settled by declaration order.
use vstd::prelude::*;

verus! {

/// ASCII lower-casing of one byte.
pub open spec fn lower_byte(b: u8) -> u8 {
    if 65 <= b <= 90 {
        (b + 32) as u8
    } else {
        b
    }
}

/// ASCII lower-casing of a byte string.
pub open spec fn lower(s: Seq<u8>) -> Seq<u8> {
    s.map_values(|b: u8| lower_byte(b))
}

/// Whether `p` is a wildcard pattern, `*.` followed by a suffix.
pub open spec fn is_wildcard(p: Seq<u8>) -> bool {
    p.len() >= 2 && p[0] == 42u8 && p[1] == 46u8
}

/// Whether pattern `p` matches the normalised name `name`.
pub open spec fn name_matches(p: Seq<u8>, name: Seq<u8>) -> bool {
    if is_wildcard(p) {
        name.len() > p.len() - 1 && name.subrange(name.len() - (p.len() - 1), name.len() as int)
            == p.subrange(1, p.len() as int)
    } else {
        p == name
    }
}

/// How specific a pattern is: the length of what it fixes of a name.
pub open spec fn match_score(p: Seq<u8>) -> nat {
    if is_wildcard(p) {
        (p.len() - 1) as nat
    } else {
        p.len()
    }
}

/// `i` is the most specific pattern of `pats` matching `name`, and the first
/// declared among those equally specific.
pub open spec fn is_best_match(pats: Seq<Seq<u8>>, name: Seq<u8>, i: int) -> bool {
    &&& 0 <= i < pats.len()
    &&& name_matches(pats[i], name)
    &&& forall|j: int|
        0 <= j < pats.len() && name_matches(pats[j], name) ==> match_score(pats[j]) <= match_score(
            pats[i],
        )
    &&& forall|j: int|
        0 <= j < i && name_matches(pats[j], name) ==> match_score(pats[j]) < match_score(pats[i])
}

/// Some pattern of `pats` matches `name`.
pub open spec fn any_match(pats: Seq<Seq<u8>>, name: Seq<u8>) -> bool {
    exists|j: int| 0 <= j < pats.len() && name_matches(#[trigger] pats[j], name)
}

/// The index of the first `c` in `s`, or the length of `s` when there is none.
pub open spec fn first_index(s: Seq<u8>, c: u8) -> nat
    decreases s.len(),
{
    if s.len() == 0 {
        0
    } else if s[0] == c {
        0
    } else {
        1 + first_index(s.drop_first(), c)
    }
}

/// The host part of a `Host` value: a bracketed IPv6 literal up to its `]`,
/// otherwise everything before the first `:`.
pub open spec fn host_part(s: Seq<u8>) -> Option<Seq<u8>> {
    if s.len() > 0 && s[0] == 91u8 {
        let k = first_index(s, 93u8);
        if k < s.len() {
            Some(s.subrange(0, (k + 1) as int))
        } else {
            None
        }
    } else {
        let k = first_index(s, 58u8);
        if k == 0 {
            None
        } else {
            Some(s.subrange(0, k as int))
        }
    }
}

/// A `Host` value normalised: its host part lower-cased, or `None` when it
/// is absent or malformed.
pub open spec fn normalized_host(s: Seq<u8>) -> Option<Seq<u8>> {
    match host_part(s) {
        Some(h) => Some(lower(h)),
        None => None,
    }
}

proof fn lemma_first_index_bounds(s: Seq<u8>, c: u8)
    ensures
        first_index(s, c) <= s.len(),
        first_index(s, c) < s.len() ==> s[first_index(s, c) as int] == c,
        forall|j: int| 0 <= j < first_index(s, c) ==> s[j] != c,
    decreases s.len(),
{
    if s.len() > 0 && s[0] != c {
        lemma_first_index_bounds(s.drop_first(), c);
        assert forall|j: int| 0 <= j < first_index(s, c) implies s[j] != c by {
            if j > 0 {
                assert(s[j] == s.drop_first()[j - 1]);
            }
        }
    }
}

proof fn lemma_first_index_is(s: Seq<u8>, c: u8, k: int)
    requires
        0 <= k <= s.len(),
        k < s.len() ==> s[k] == c,
        forall|j: int| 0 <= j < k ==> s[j] != c,
    ensures
        first_index(s, c) == k,
    decreases s.len(),
{
    if s.len() > 0 && s[0] != c {
        lemma_first_index_is(s.drop_first(), c, k - 1);
    }
}

/// Position of the first `c` in `s`, or `s.len()`.
pub fn find_byte(s: &[u8], c: u8) -> (r: usize)
    ensures
        r == first_index(s@, c),
{
    let mut i: usize = 0;
    while i < s.len()
        invariant
            i <= s@.len(),
            forall|j: int| 0 <= j < i ==> s@[j] != c,
        decreases s.len() - i,
    {
        if s[i] == c {
            proof {
                lemma_first_index_is(s@, c, i as int);
            }
            return i;
        }
        i = i + 1;
    }
    proof {
        lemma_first_index_is(s@, c, i as int);
    }
    i
}

/// ASCII lower-casing of one byte.
pub fn to_lower_byte(b: u8) -> (r: u8)
    ensures
        r == lower_byte(b),
{
    if 65 <= b && b <= 90 {
        b + 32
    } else {
        b
    }
}

/// Lower-cases `s[start..end]` into a new vector.
pub fn lower_range(s: &[u8], start: usize, end: usize) -> (r: Vec<u8>)
    requires
        start <= end <= s@.len(),
    ensures
        r@ == lower(s@.subrange(start as int, end as int)),
{
    let mut r: Vec<u8> = Vec::new();
    let mut i: usize = start;
    while i < end
        invariant
            start <= i <= end <= s@.len(),
            r@ == lower(s@.subrange(start as int, i as int)),
        decreases end - i,
    {
        r.push(to_lower_byte(s[i]));
        i = i + 1;
        assert(r@ =~= lower(s@.subrange(start as int, i as int)));
    }
    r
}

/// Normalises a `Host` value: strips the port and lower-cases the host.
/// `None` when the host part is empty or an IPv6 literal is unterminated.
pub fn normalize_host(s: &[u8]) -> (r: Option<Vec<u8>>)
    ensures
        r matches Some(h) ==> normalized_host(s@) == Some(h@),
        r is None ==> normalized_host(s@) is None,
{
    proof {
        lemma_first_index_bounds(s@, 93u8);
        lemma_first_index_bounds(s@, 58u8);
    }
    if s.len() > 0 && s[0] == 91u8 {
        let k = find_byte(s, 93u8);
        if k < s.len() {
            Some(lower_range(s, 0, k + 1))
        } else {
            None
        }
    } else {
        let k = find_byte(s, 58u8);
        if k == 0 {
            None
        } else {
            Some(lower_range(s, 0, k))
        }
    }
}

/// Whether two byte strings are equal.
pub fn bytes_eq(a: &[u8], b: &[u8]) -> (r: bool)
    ensures
        r == (a@ == b@),
{
    if a.len() != b.len() {
        return false;
    }
    let mut i: usize = 0;
    while i < a.len()
        invariant
            a@.len() == b@.len(),
            i <= a@.len(),
            forall|j: int| 0 <= j < i ==> a@[j] == b@[j],
        decreases a.len() - i,
    {
        if a[i] != b[i] {
            return false;
        }
        i = i + 1;
    }
    assert(a@ =~= b@);
    true
}

/// Whether `s` ends with `suffix`.
pub fn ends_with(s: &[u8], suffix: &[u8], from: usize) -> (r: bool)
    requires
        from <= suffix@.len(),
    ensures
        r == (s@.len() >= suffix@.len() - from && s@.subrange(
            s@.len() - (suffix@.len() - from),
            s@.len() as int,
        ) == suffix@.subrange(from as int, suffix@.len() as int)),
{
    let n = suffix.len() - from;
    if s.len() < n {
        return false;
    }
    let off = s.len() - n;
    let mut i: usize = 0;
    while i < n
        invariant
            from <= suffix@.len(),
            n == suffix@.len() - from,
            n <= s@.len(),
            off == s@.len() - n,
            s@.len() <= usize::MAX,
            suffix@.len() <= usize::MAX,
            i <= n,
            forall|j: int| 0 <= j < i ==> #[trigger] s@[off + j] == suffix@[from + j],
        decreases n - i,
    {
        if s[off + i] != suffix[from + i] {
            assert(s@.subrange(off as int, s@.len() as int)[i as int] != suffix@.subrange(
                from as int,
                suffix@.len() as int,
            )[i as int]);
            return false;
        }
        i = i + 1;
    }
    assert forall|j: int| 0 <= j < n implies s@.subrange(off as int, s@.len() as int)[j]
        == suffix@.subrange(from as int, suffix@.len() as int)[j] by {
        assert(s@[off + j] == suffix@[from + j]);
    }
    assert(s@.subrange(off as int, s@.len() as int) =~= suffix@.subrange(
        from as int,
        suffix@.len() as int,
    ));
    true
}

/// Whether pattern `p` matches `name`.
pub fn pattern_matches(p: &[u8], name: &[u8]) -> (r: bool)
    ensures
        r == name_matches(p@, name@),
{
    if p.len() >= 2 && p[0] == 42u8 && p[1] == 46u8 {
        name.len() > p.len() - 1 && ends_with(name, p, 1)
    } else {
        bytes_eq(p, name)
    }
}

/// The specificity of pattern `p`.
pub fn pattern_score(p: &[u8]) -> (r: usize)
    ensures
        r == match_score(p@),
{
    if p.len() >= 2 && p[0] == 42u8 && p[1] == 46u8 {
        p.len() - 1
    } else {
        p.len()
    }
}

/// The most specific pattern of `pats` matching `name` (meaningful when one
/// matches).
pub open spec fn best_match(pats: Seq<Seq<u8>>, name: Seq<u8>) -> int {
    choose|i: int| is_best_match(pats, name, i)
}

/// When some pattern matches, a most specific one exists.
pub proof fn lemma_best_match_exists(pats: Seq<Seq<u8>>, name: Seq<u8>)
    requires
        any_match(pats, name),
    ensures
        is_best_match(pats, name, best_match(pats, name)),
    decreases pats.len(),
{
    let n = pats.len() - 1;
    let init = pats.subrange(0, n);
    assert forall|j: int| 0 <= j < n implies init[j] == pats[j] by {}
    let w: int;
    if any_match(init, name) {
        lemma_best_match_exists(init, name);
        let i = best_match(init, name);
        if name_matches(pats[n], name) && match_score(pats[n]) > match_score(init[i]) {
            w = n;
        } else {
            w = i;
        }
        assert forall|j: int|
            0 <= j < pats.len() && name_matches(pats[j], name) implies match_score(pats[j])
            <= match_score(pats[w]) by {
            if j < n {
                assert(init[j] == pats[j]);
            }
        }
        assert forall|j: int| 0 <= j < w && name_matches(pats[j], name) implies match_score(
            pats[j],
        ) < match_score(pats[w]) by {
            if j < n {
                assert(init[j] == pats[j]);
            }
        }
    } else {
        w = n;
        let k = choose|k: int| 0 <= k < pats.len() && name_matches(#[trigger] pats[k], name);
        if k < n {
            assert(init[k] == pats[k]);
        }
        assert forall|j: int| 0 <= j < n implies !name_matches(pats[j], name) by {
            assert(init[j] == pats[j]);
        }
    }
    assert(is_best_match(pats, name, w));
    lemma_best_match_unique(pats, name, w);
}

/// The most specific match is unique.
pub proof fn lemma_best_match_unique(pats: Seq<Seq<u8>>, name: Seq<u8>, i: int)
    requires
        is_best_match(pats, name, i),
    ensures
        best_match(pats, name) == i,
{
    let j = best_match(pats, name);
    assert(is_best_match(pats, name, j));
    if j < i {
    } else if i < j {
    }
}

} // verus!
