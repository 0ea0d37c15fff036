//! Guide star selection over order keys.
//!
//! A figure of merit enters as an order key: `a < b` between keys exactly
//! when the quantities compare so.  `Option<u64>` keys use `None` for a
//! quantity that no comparison accepts (a NaN).
use vstd::prelude::*;
use vstd::string::*;
use crate::errors::AtpError;
use crate::probe::{is_reach_list, ProbeState};

verus! {

/// Probe `p` of the table `reach` reaches star `s`; a star beyond the end of
/// a probe's row is out of its reach.
pub open spec fn reaches(reach: Seq<Vec<bool>>, p: int, s: int) -> bool {
    0 <= p < reach.len() && 0 <= s < reach[p]@.len() && reach[p]@[s]
}

/// Some probe of `reach` reaches star `s`.
pub open spec fn reachable_by_some(reach: Seq<Vec<bool>>, s: int) -> bool {
    exists|p: int| reaches(reach, p, s)
}

/// `p` is the first probe (lowest index) that reaches star `s`.
pub open spec fn first_probe_reaching(reach: Seq<Vec<bool>>, s: int, p: int) -> bool {
    reaches(reach, p, s) && forall|q: int| 0 <= q < p ==> !reaches(reach, q, s)
}

/// Item `a` with key `ka` comes no later than item `b` with key `kb` when
/// items are ordered by key, and equal keys by index.
pub open spec fn key_precedes(ka: u64, a: int, kb: u64, b: int) -> bool {
    ka < kb || (ka == kb && a <= b)
}

/// `s` is the tip-tilt guide star: reachable by some probe, and first in the
/// order of expected error (ties to the lower index) among reachable stars.
pub open spec fn is_tt7_choice(keys: Seq<u64>, reach: Seq<Vec<bool>>, s: int) -> bool {
    &&& 0 <= s < keys.len()
    &&& reachable_by_some(reach, s)
    &&& forall|t: int|
        0 <= t < keys.len() && reachable_by_some(reach, t) ==> key_precedes(
            keys[s],
            s,
            keys[t],
            t,
        )
}

/// The tip-tilt star and the probe that serves it.
#[derive(Debug, Clone, Copy, PartialEq, Eq)]
pub struct Tt7Choice {
    pub star_idx: usize,
    pub probe_idx: usize,
}

/// What `find_tt7_guide_star` answers for error keys `keys` and reach table
/// `reach`.
pub open spec fn tt7_outcome(
    keys: Seq<u64>,
    reach: Seq<Vec<bool>>,
    r: Result<Tt7Choice, AtpError>,
) -> bool {
    if keys.len() == 0 {
        r matches Err(AtpError::Catalog(m)) && m@ == "No stars available"@
    } else if forall|s: int| 0 <= s < keys.len() ==> !reachable_by_some(reach, s) {
        r matches Err(AtpError::Catalog(m)) && m@ == "No reachable TT7 guide star found"@
    } else {
        r matches Ok(c) && is_tt7_choice(keys, reach, c.star_idx as int) && first_probe_reaching(
            reach,
            c.star_idx as int,
            c.probe_idx as int,
        )
    }
}

/// The first probe that reaches star `s`, if any.
fn first_probe(reach: &Vec<Vec<bool>>, s: usize) -> (r: Option<usize>)
    ensures
        match r {
            Some(p) => first_probe_reaching(reach@, s as int, p as int),
            None => !reachable_by_some(reach@, s as int),
        },
{
    let n = reach.len();
    let mut p: usize = 0;
    while p < n
        invariant
            n == reach@.len(),
            p <= n,
            forall|q: int| 0 <= q < p ==> !reaches(reach@, q, s as int),
        decreases n - p,
    {
        if s < reach[p].len() && reach[p][s] {
            return Some(p);
        }
        p = p + 1;
    }
    assert forall|q: int| !reaches(reach@, q, s as int) by {}
    None
}

/// Finds the tip-tilt (TT7) guide star.
///
/// `error_keys[s]` is the order key of the expected RMS tilt error with star
/// `s` as guide star; `reach[p][s]` tells whether probe `p` can reach star
/// `s`.  The star chosen is the one of least error among the stars that some
/// probe reaches (the lower index on equal errors); it is served by the first
/// probe that reaches it.
pub fn find_tt7_guide_star(error_keys: &Vec<u64>, reach: &Vec<Vec<bool>>) -> (r: Result<
    Tt7Choice,
    AtpError,
>)
    ensures
        tt7_outcome(error_keys@, reach@, r),
{
    let n = error_keys.len();
    if n == 0 {
        return Err(AtpError::Catalog(String::from_str("No stars available")));
    }
    let mut best: Option<Tt7Choice> = None;
    let mut s: usize = 0;
    while s < n
        invariant
            n == error_keys@.len(),
            s <= n,
            match best {
                None => forall|t: int| 0 <= t < s ==> !reachable_by_some(reach@, t),
                Some(c) => {
                    &&& c.star_idx < s
                    &&& reachable_by_some(reach@, c.star_idx as int)
                    &&& first_probe_reaching(reach@, c.star_idx as int, c.probe_idx as int)
                    &&& forall|t: int|
                        0 <= t < s && reachable_by_some(reach@, t) ==> key_precedes(
                            error_keys@[c.star_idx as int],
                            c.star_idx as int,
                            error_keys@[t],
                            t,
                        )
                },
            },
        decreases n - s,
    {
        match first_probe(reach, s) {
            Some(p) => {
                let better = match best {
                    None => true,
                    Some(c) => error_keys[s] < error_keys[c.star_idx],
                };
                if better {
                    best = Some(Tt7Choice { star_idx: s, probe_idx: p });
                }
            },
            None => {},
        }
        s = s + 1;
    }
    match best {
        Some(c) => Ok(c),
        None => Err(AtpError::Catalog(String::from_str("No reachable TT7 guide star found"))),
    }
}

/// Every probe position of `ids` names a probe of `probes`, and every star
/// in the reach lists of those probes is below `n`.
pub open spec fn lists_within(probes: Seq<ProbeState>, ids: Seq<usize>, n: nat) -> bool {
    &&& forall|q: int| 0 <= q < ids.len() ==> ids[q] < probes.len()
    &&& forall|q: int, k: int|
        0 <= q < ids.len() && 0 <= k < probes[ids[q] as int].reachable_stars@.len()
            ==> probes[ids[q] as int].reachable_stars@[k] < n
}

/// Star `s` is in the reach list of one of the probes `ids` of `probes`.
pub open spec fn listed_by_some(probes: Seq<ProbeState>, ids: Seq<usize>, s: int) -> bool {
    exists|q: int, k: int|
        0 <= q < ids.len() && 0 <= k < probes[ids[q] as int].reachable_stars@.len()
            && probes[ids[q] as int].reachable_stars@[k] == s
}

/// The stars below `n` that some probe of `ids` lists, in increasing order.
pub open spec fn stars_in_union(probes: Seq<ProbeState>, ids: Seq<usize>, n: nat) -> Seq<usize>
    decreases n,
{
    if n == 0 {
        Seq::empty()
    } else {
        let r = stars_in_union(probes, ids, (n - 1) as nat);
        if listed_by_some(probes, ids, n - 1) {
            r.push((n - 1) as usize)
        } else {
            r
        }
    }
}

/// The union of the reach lists is increasing, holds stars below `n` only,
/// and holds each listed star below `n`.
pub proof fn lemma_stars_in_union(probes: Seq<ProbeState>, ids: Seq<usize>, n: nat)
    ensures
        forall|i: int, j: int|
            0 <= i < j < stars_in_union(probes, ids, n).len() ==> stars_in_union(probes, ids, n)[i]
                < stars_in_union(probes, ids, n)[j],
        forall|i: int|
            0 <= i < stars_in_union(probes, ids, n).len() ==> stars_in_union(probes, ids, n)[i]
                < n && listed_by_some(probes, ids, stars_in_union(probes, ids, n)[i] as int),
        forall|s: int|
            0 <= s < n && listed_by_some(probes, ids, s) ==> stars_in_union(
                probes,
                ids,
                n,
            ).contains(s as usize),
        stars_in_union(probes, ids, n).len() <= n,
    decreases n,
{
    if n > 0 {
        let m = (n - 1) as nat;
        lemma_stars_in_union(probes, ids, m);
        let r = stars_in_union(probes, ids, m);
        let u = stars_in_union(probes, ids, n);
        assert forall|s: int| 0 <= s < n && listed_by_some(probes, ids, s) implies u.contains(
            s as usize,
        ) by {
            if s < m {
                let k = choose|k: int| 0 <= k < r.len() && r[k] == s as usize;
                assert(u[k] == s as usize);
            } else {
                assert(u[r.len() as int] == s as usize);
            }
        }
    }
}

/// The stars that the probes `ids` of `probes` can reach between them, in
/// increasing order.
pub fn reachable_union(probes: &Vec<ProbeState>, ids: &Vec<usize>, n_stars: usize) -> (r: Vec<
    usize,
>)
    requires
        lists_within(probes@, ids@, n_stars as nat),
    ensures
        r@ == stars_in_union(probes@, ids@, n_stars as nat),
{
    let mut mask: Vec<bool> = vec![false; n_stars];
    let nq = ids.len();
    let mut q: usize = 0;
    while q < nq
        invariant
            nq == ids@.len(),
            q <= nq,
            lists_within(probes@, ids@, n_stars as nat),
            mask@.len() == n_stars,
            forall|s: int|
                0 <= s < n_stars ==> (mask@[s] <==> exists|q2: int, k2: int|
                    0 <= q2 < q && 0 <= k2 < probes@[ids@[q2] as int].reachable_stars@.len()
                        && probes@[ids@[q2] as int].reachable_stars@[k2] == s),
        decreases nq - q,
    {
        let list = &probes[ids[q]].reachable_stars;
        let nk = list.len();
        let mut k: usize = 0;
        while k < nk
            invariant
                nq == ids@.len(),
                q < nq,
                k <= nk,
                lists_within(probes@, ids@, n_stars as nat),
                *list == probes@[ids@[q as int] as int].reachable_stars,
                nk == list@.len(),
                mask@.len() == n_stars,
                forall|s: int|
                    0 <= s < n_stars ==> (mask@[s] <==> (exists|q2: int, k2: int|
                        0 <= q2 < q && 0 <= k2 < probes@[ids@[q2] as int].reachable_stars@.len()
                            && probes@[ids@[q2] as int].reachable_stars@[k2] == s) || (exists|
                        k2: int,
                    | 0 <= k2 < k && list@[k2] == s)),
            decreases nk - k,
        {
            let idx = list[k];
            assert(idx < n_stars);
            let ghost before = mask@;
            mask.set(idx, true);
            assert forall|s: int| 0 <= s < n_stars implies (mask@[s] <==> (exists|q2: int, k2: int|
                0 <= q2 < q && 0 <= k2 < probes@[ids@[q2] as int].reachable_stars@.len()
                    && probes@[ids@[q2] as int].reachable_stars@[k2] == s) || (exists|k2: int|
                0 <= k2 < k + 1 && list@[k2] == s)) by {
                if s == idx {
                    assert(list@[k as int] == s);
                } else {
                    assert(mask@[s] == before[s]);
                    if exists|k2: int| 0 <= k2 < k + 1 && list@[k2] == s {
                        let k2 = choose|k2: int| 0 <= k2 < k + 1 && list@[k2] == s;
                        assert(k2 < k);
                    }
                }
            }
            k = k + 1;
        }
        assert forall|s: int| 0 <= s < n_stars implies (mask@[s] <==> exists|q2: int, k2: int|
            0 <= q2 < q + 1 && 0 <= k2 < probes@[ids@[q2] as int].reachable_stars@.len()
                && probes@[ids@[q2] as int].reachable_stars@[k2] == s) by {
            if exists|q2: int, k2: int|
                0 <= q2 < q + 1 && 0 <= k2 < probes@[ids@[q2] as int].reachable_stars@.len()
                    && probes@[ids@[q2] as int].reachable_stars@[k2] == s {
                let (q2, k2) = choose|q2: int, k2: int|
                    0 <= q2 < q + 1 && 0 <= k2 < probes@[ids@[q2] as int].reachable_stars@.len()
                        && probes@[ids@[q2] as int].reachable_stars@[k2] == s;
                if q2 == q {
                    assert(list@[k2] == s);
                }
            }
            if exists|k2: int| 0 <= k2 < nk && list@[k2] == s {
                let k2 = choose|k2: int| 0 <= k2 < nk && list@[k2] == s;
                assert(probes@[ids@[q as int] as int].reachable_stars@[k2] == s);
            }
        }
        q = q + 1;
    }
    let mut r: Vec<usize> = Vec::new();
    let mut s: usize = 0;
    while s < n_stars
        invariant
            s <= n_stars,
            mask@.len() == n_stars,
            nq == ids@.len(),
            forall|t: int|
                0 <= t < n_stars ==> (mask@[t] <==> listed_by_some(probes@, ids@, t)),
            r@ == stars_in_union(probes@, ids@, s as nat),
        decreases n_stars - s,
    {
        if mask[s] {
            r.push(s);
        }
        s = s + 1;
    }
    r
}

/// The order keys that the Shack-Hartmann (SH) triplet search compares.
///
/// `dist[p][s]` is the key of the distance from probe `p` to star `s` when
/// the probe can reach the star (at a finite distance), and `None` when it
/// cannot.  `azimuth[i][j][k]` is the key of the azimuth mismatch of stars `j`
/// and `k` placed at +120 and -120 degrees around star `i`;
/// `wfe[i][j][k]` is the key of the wavefront-error estimate of the triplet
/// `(i, j, k)`.  An entry beyond the end of a table is `None`.
#[derive(Debug, Clone)]
pub struct ShCosts {
    pub dist: Vec<Vec<Option<u64>>>,
    pub azimuth: Vec<Vec<Vec<Option<u64>>>>,
    pub wfe: Vec<Vec<Vec<Option<u64>>>>,
}

/// Entry `(i, j)` of a table, `None` beyond its end.
pub open spec fn at2(t: Vec<Vec<Option<u64>>>, i: int, j: int) -> Option<u64> {
    if 0 <= i < t@.len() && 0 <= j < t@[i]@.len() {
        t@[i]@[j]
    } else {
        None
    }
}

/// Entry `(i, j, k)` of a table, `None` beyond its end.
pub open spec fn at3(t: Vec<Vec<Vec<Option<u64>>>>, i: int, j: int, k: int) -> Option<u64> {
    if 0 <= i < t@.len() && 0 <= j < t@[i]@.len() && 0 <= k < t@[i]@[j]@.len() {
        t@[i]@[j]@[k]
    } else {
        None
    }
}

fn get2(t: &Vec<Vec<Option<u64>>>, i: usize, j: usize) -> (r: Option<u64>)
    ensures
        r == at2(*t, i as int, j as int),
{
    if i < t.len() && j < t[i].len() {
        t[i][j]
    } else {
        None
    }
}

fn get3(t: &Vec<Vec<Vec<Option<u64>>>>, i: usize, j: usize, k: usize) -> (r: Option<u64>)
    ensures
        r == at3(*t, i as int, j as int, k as int),
{
    if i < t.len() && j < t[i].len() && k < t[i][j].len() {
        t[i][j][k]
    } else {
        None
    }
}

/// The sequence is strictly increasing.
pub open spec fn strictly_increasing(r: Seq<usize>) -> bool {
    forall|a: int, b: int| 0 <= a < b < r.len() ==> r[a] < r[b]
}

/// Star `j` is an entry of `r`.
pub open spec fn in_list(r: Seq<usize>, j: int) -> bool {
    exists|a: int| 0 <= a < r.len() && r[a] as int == j
}

/// Stars `j` and `k` of the candidate list `r` may complete a triplet around
/// star `i`: the three are distinct and their azimuth mismatch is a number.
pub open spec fn pair_valid(az: Vec<Vec<Vec<Option<u64>>>>, r: Seq<usize>, i: int, j: int, k: int) -> bool {
    &&& in_list(r, j)
    &&& in_list(r, k)
    &&& j != i && k != i && k != j
    &&& at3(az, i, j, k) is Some
}

/// Pair `(j, k)` comes no later than pair `(j2, k2)` in the order of azimuth
/// mismatch, equal mismatches ordered by `j`, then by `k`.
pub open spec fn pair_precedes(
    az: Vec<Vec<Vec<Option<u64>>>>,
    i: int,
    j: int,
    k: int,
    j2: int,
    k2: int,
) -> bool {
    let a = at3(az, i, j, k)->0;
    let b = at3(az, i, j2, k2)->0;
    a < b || (a == b && (j < j2 || (j == j2 && k <= k2)))
}

/// `(j, k)` is the pair of least azimuth mismatch around star `i`.
pub open spec fn is_best_pair(az: Vec<Vec<Vec<Option<u64>>>>, r: Seq<usize>, i: int, j: int, k: int) -> bool {
    &&& pair_valid(az, r, i, j, k)
    &&& forall|j2: int, k2: int| pair_valid(az, r, i, j2, k2) ==> pair_precedes(az, i, j, k, j2, k2)
}

/// Some pair completes a triplet around star `i`.
pub open spec fn pair_matched(az: Vec<Vec<Vec<Option<u64>>>>, r: Seq<usize>, i: int) -> bool {
    exists|j: int, k: int| is_best_pair(az, r, i, j, k)
}

/// The two stars that complete the triplet around star `i`: the pair of least
/// azimuth mismatch, or stars 0 and 0 when no pair qualifies.
pub open spec fn best_pair_of(az: Vec<Vec<Vec<Option<u64>>>>, r: Seq<usize>, i: int) -> (int, int) {
    if pair_matched(az, r, i) {
        choose|j: int, k: int| is_best_pair(az, r, i, j, k)
    } else {
        (0, 0)
    }
}

/// At most one pair is best.
pub proof fn lemma_best_pair_unique(
    az: Vec<Vec<Vec<Option<u64>>>>,
    r: Seq<usize>,
    i: int,
    j: int,
    k: int,
    j2: int,
    k2: int,
)
    requires
        is_best_pair(az, r, i, j, k),
        is_best_pair(az, r, i, j2, k2),
    ensures
        j == j2 && k == k2,
{
    assert(pair_precedes(az, i, j, k, j2, k2));
    assert(pair_precedes(az, i, j2, k2, j, k));
}

/// Finds the pair of candidate stars that best completes a triplet around
/// star `i`: the two stars, and whether any pair qualified.
fn best_pair(az: &Vec<Vec<Vec<Option<u64>>>>, r: &Vec<usize>, i: usize) -> (res: (usize, usize, bool))
    requires
        strictly_increasing(r@),
    ensures
        res.2 == pair_matched(*az, r@, i as int),
        (res.0 as int, res.1 as int) == best_pair_of(*az, r@, i as int),
{
    let m = r.len();
    let mut best_j: usize = 0;
    let mut best_k: usize = 0;
    let mut best_key: u64 = 0;
    let mut found = false;
    let ghost mut pa: int = 0;
    let ghost mut pb: int = 0;
    let mut a: usize = 0;
    while a < m
        invariant
            m == r@.len(),
            a <= m,
            strictly_increasing(r@),
            found ==> {
                &&& 0 <= pa < a && 0 <= pb < m
                &&& best_j == r@[pa] && best_k == r@[pb]
                &&& pair_valid(*az, r@, i as int, best_j as int, best_k as int)
                &&& at3(*az, i as int, best_j as int, best_k as int) == Some(best_key)
            },
            forall|a2: int, b2: int|
                0 <= a2 < a && 0 <= b2 < m && pair_valid(
                    *az,
                    r@,
                    i as int,
                    r@[a2] as int,
                    r@[b2] as int,
                ) ==> found && pair_precedes(
                    *az,
                    i as int,
                    best_j as int,
                    best_k as int,
                    r@[a2] as int,
                    r@[b2] as int,
                ),
            !found ==> best_j == 0 && best_k == 0,
        decreases m - a,
    {
        let j = r[a];
        let mut b: usize = 0;
        while b < m
            invariant
                m == r@.len(),
                a < m,
                b <= m,
                j == r@[a as int],
                strictly_increasing(r@),
                found ==> {
                    &&& 0 <= pa < a || (pa == a && pb < b)
                    &&& 0 <= pb < m
                    &&& best_j == r@[pa] && best_k == r@[pb]
                    &&& pair_valid(*az, r@, i as int, best_j as int, best_k as int)
                    &&& at3(*az, i as int, best_j as int, best_k as int) == Some(best_key)
                },
                forall|a2: int, b2: int|
                    ((0 <= a2 < a && 0 <= b2 < m) || (a2 == a && 0 <= b2 < b)) && pair_valid(
                        *az,
                        r@,
                        i as int,
                        r@[a2] as int,
                        r@[b2] as int,
                    ) ==> found && pair_precedes(
                        *az,
                        i as int,
                        best_j as int,
                        best_k as int,
                        r@[a2] as int,
                        r@[b2] as int,
                    ),
                !found ==> best_j == 0 && best_k == 0,
            decreases m - b,
        {
            let k = r[b];
            if j != i && k != i && k != j {
                match get3(az, i, j, k) {
                    Some(key) => {
                        assert(in_list(r@, j as int));
                        assert(in_list(r@, k as int));
                        if !found || key < best_key {
                            best_j = j;
                            best_k = k;
                            best_key = key;
                            found = true;
                            proof {
                                pa = a as int;
                                pb = b as int;
                            }
                        } else {
                            assert(pa < a ==> r@[pa] < r@[a as int]);
                            assert(pa == a && pb < b ==> r@[pb] < r@[b as int]);
                        }
                    },
                    None => {},
                }
            }
            b = b + 1;
        }
        a = a + 1;
    }
    if found {
        assert forall|j2: int, k2: int| pair_valid(*az, r@, i as int, j2, k2) implies pair_precedes(
            *az,
            i as int,
            best_j as int,
            best_k as int,
            j2,
            k2,
        ) by {
            let a2 = choose|a2: int| 0 <= a2 < r@.len() && r@[a2] as int == j2;
            let b2 = choose|b2: int| 0 <= b2 < r@.len() && r@[b2] as int == k2;
        }
        assert(is_best_pair(*az, r@, i as int, best_j as int, best_k as int));
        let ghost c = choose|j: int, k: int| is_best_pair(*az, r@, i as int, j, k);
        proof {
            lemma_best_pair_unique(*az, r@, i as int, c.0, c.1, best_j as int, best_k as int);
        }
    } else {
        assert forall|j2: int, k2: int| !is_best_pair(*az, r@, i as int, j2, k2) by {
            if pair_valid(*az, r@, i as int, j2, k2) {
                let a2 = choose|a2: int| 0 <= a2 < r@.len() && r@[a2] as int == j2;
                let b2 = choose|b2: int| 0 <= b2 < r@.len() && r@[b2] as int == k2;
                assert(pair_valid(*az, r@, i as int, r@[a2] as int, r@[b2] as int));
            }
        }
    }
    (best_j, best_k, found)
}

/// Position `q` of the probe list `ids` is not yet taken and its probe
/// reaches star `s`.
pub open spec fn pick_candidate(
    dist: Vec<Vec<Option<u64>>>,
    ids: Seq<usize>,
    taken: Seq<usize>,
    s: int,
    q: int,
) -> bool {
    0 <= q < ids.len() && !taken.contains(q as usize) && at2(dist, ids[q] as int, s) is Some
}

/// `q` is the free probe position nearest to star `s` (the lower position on
/// equal distances).
pub open spec fn is_pick(
    dist: Vec<Vec<Option<u64>>>,
    ids: Seq<usize>,
    taken: Seq<usize>,
    s: int,
    q: int,
) -> bool {
    &&& pick_candidate(dist, ids, taken, s, q)
    &&& forall|q2: int|
        pick_candidate(dist, ids, taken, s, q2) ==> key_precedes(
            at2(dist, ids[q] as int, s)->0,
            q,
            at2(dist, ids[q2] as int, s)->0,
            q2,
        )
}

/// The free probe position nearest to star `s`, if any probe can take it.
pub open spec fn pick(dist: Vec<Vec<Option<u64>>>, ids: Seq<usize>, taken: Seq<usize>, s: int) -> Option<int> {
    if exists|q: int| is_pick(dist, ids, taken, s, q) {
        Some(choose|q: int| is_pick(dist, ids, taken, s, q))
    } else {
        None
    }
}

/// The probes that serve a triplet: each star in turn takes the nearest probe
/// that is still free and reaches it.  `None` when some star finds none.
pub open spec fn greedy_assignment(
    dist: Vec<Vec<Option<u64>>>,
    ids: Seq<usize>,
    stars: (int, int, int),
) -> Option<(int, int, int)> {
    match pick(dist, ids, seq![], stars.0) {
        None => None,
        Some(p0) => match pick(dist, ids, seq![p0 as usize], stars.1) {
            None => None,
            Some(p1) => match pick(dist, ids, seq![p0 as usize, p1 as usize], stars.2) {
                None => None,
                Some(p2) => Some((p0, p1, p2)),
            },
        },
    }
}

fn contains_position(taken: &Vec<usize>, q: usize) -> (r: bool)
    ensures
        r == taken@.contains(q),
{
    let n = taken.len();
    let mut i: usize = 0;
    while i < n
        invariant
            n == taken@.len(),
            i <= n,
            forall|k: int| 0 <= k < i ==> taken@[k] != q,
        decreases n - i,
    {
        if taken[i] == q {
            return true;
        }
        i = i + 1;
    }
    false
}

/// The free probe position nearest to star `s`.
fn pick_probe(dist: &Vec<Vec<Option<u64>>>, ids: &Vec<usize>, taken: &Vec<usize>, s: usize) -> (r:
    Option<usize>)
    ensures
        match r {
            Some(q) => pick(*dist, ids@, taken@, s as int) == Some(q as int),
            None => pick(*dist, ids@, taken@, s as int) is None,
        },
{
    let n = ids.len();
    let mut best: Option<usize> = None;
    let mut best_key: u64 = 0;
    let mut q: usize = 0;
    while q < n
        invariant
            n == ids@.len(),
            q <= n,
            match best {
                None => forall|q2: int| 0 <= q2 < q ==> !pick_candidate(*dist, ids@, taken@, s as int, q2),
                Some(b) => {
                    &&& b < q
                    &&& pick_candidate(*dist, ids@, taken@, s as int, b as int)
                    &&& at2(*dist, ids@[b as int] as int, s as int) == Some(best_key)
                    &&& forall|q2: int|
                        0 <= q2 < q && pick_candidate(*dist, ids@, taken@, s as int, q2)
                            ==> key_precedes(best_key, b as int, at2(*dist, ids@[q2] as int, s as int)->0, q2)
                },
            },
        decreases n - q,
    {
        if !contains_position(taken, q) {
            match get2(dist, ids[q], s) {
                Some(d) => {
                    let better = match best {
                        None => true,
                        Some(_) => d < best_key,
                    };
                    if better {
                        best = Some(q);
                        best_key = d;
                    }
                },
                None => {},
            }
        }
        q = q + 1;
    }
    match best {
        Some(b) => {
            assert(is_pick(*dist, ids@, taken@, s as int, b as int));
            let ghost c = choose|q: int| is_pick(*dist, ids@, taken@, s as int, q);
            assert(key_precedes(best_key, b as int, at2(*dist, ids@[c] as int, s as int)->0, c));
            Some(b)
        },
        None => {
            assert forall|q2: int| !is_pick(*dist, ids@, taken@, s as int, q2) by {}
            None
        },
    }
}

/// Spreads a triplet of stars over the probes `ids`: each star in turn takes
/// the nearest probe that is still free and can reach it.  The answer holds
/// positions in `ids`; `None` when some star finds no free probe.
pub fn assign_triplet_to_probes(
    star_indices: [usize; 3],
    dist: &Vec<Vec<Option<u64>>>,
    ids: &Vec<usize>,
) -> (r: Option<[usize; 3]>)
    ensures
        match r {
            Some(a) => greedy_assignment(
                *dist,
                ids@,
                (star_indices[0] as int, star_indices[1] as int, star_indices[2] as int),
            ) == Some((a[0] as int, a[1] as int, a[2] as int)),
            None => greedy_assignment(
                *dist,
                ids@,
                (star_indices[0] as int, star_indices[1] as int, star_indices[2] as int),
            ) is None,
        },
{
    let mut taken: Vec<usize> = Vec::new();
    let p0 = match pick_probe(dist, ids, &taken, star_indices[0]) {
        Some(p) => p,
        None => return None,
    };
    assert(taken@ =~= seq![]);
    taken.push(p0);
    assert(taken@ =~= seq![p0]);
    let p1 = match pick_probe(dist, ids, &taken, star_indices[1]) {
        Some(p) => p,
        None => return None,
    };
    taken.push(p1);
    assert(taken@ =~= seq![p0, p1]);
    let p2 = match pick_probe(dist, ids, &taken, star_indices[2]) {
        Some(p) => p,
        None => return None,
    };
    Some([p0, p1, p2])
}

/// The triplet tried around the candidate at position `t` of `cands`: that
/// star and the pair that best completes it.
pub open spec fn triplet_at(costs: ShCosts, cands: Seq<usize>, t: int) -> (int, int, int) {
    let i = cands[t] as int;
    let pr = best_pair_of(costs.azimuth, cands, i);
    (i, pr.0, pr.1)
}

/// The probes (positions in `ids`) that serve the triplet tried at `t`.
pub open spec fn assignment_at(costs: ShCosts, ids: Seq<usize>, cands: Seq<usize>, t: int) -> Option<
    (int, int, int),
> {
    greedy_assignment(costs.dist, ids, triplet_at(costs, cands, t))
}

/// The wavefront-error key of the triplet tried at `t`.
pub open spec fn wfe_at(costs: ShCosts, cands: Seq<usize>, t: int) -> Option<u64> {
    let tr = triplet_at(costs, cands, t);
    at3(costs.wfe, tr.0, tr.1, tr.2)
}

/// How many of the triplets tried before position `t` found probes.
pub open spec fn tested_before(costs: ShCosts, ids: Seq<usize>, cands: Seq<usize>, t: nat) -> nat
    decreases t,
{
    if t == 0 {
        0
    } else {
        tested_before(costs, ids, cands, (t - 1) as nat) + if assignment_at(
            costs,
            ids,
            cands,
            t - 1,
        ) is Some {
            1nat
        } else {
            0nat
        }
    }
}

/// The triplet tried at position `t` is weighed: fewer than `n_cand`
/// triplets found probes before it, and it finds probes itself.
pub open spec fn considered(
    costs: ShCosts,
    ids: Seq<usize>,
    cands: Seq<usize>,
    n_cand: nat,
    t: int,
) -> bool {
    &&& 0 <= t < cands.len()
    &&& tested_before(costs, ids, cands, t as nat) < n_cand
    &&& assignment_at(costs, ids, cands, t) is Some
}

/// `t` is the first weighed position.
pub open spec fn first_considered(
    costs: ShCosts,
    ids: Seq<usize>,
    cands: Seq<usize>,
    n_cand: nat,
    t: int,
) -> bool {
    considered(costs, ids, cands, n_cand, t) && forall|u: int|
        0 <= u < t ==> !considered(costs, ids, cands, n_cand, u)
}

/// `b` is the weighed triplet that the search keeps: a later triplet replaces
/// the kept one only when its wavefront error is smaller.  So the first
/// weighed triplet is kept when its estimate is not a number; otherwise the
/// kept one is the first of least estimate among those whose estimate is a
/// number.
pub open spec fn is_sh_best(
    costs: ShCosts,
    ids: Seq<usize>,
    cands: Seq<usize>,
    n_cand: nat,
    b: int,
) -> bool {
    ||| first_considered(costs, ids, cands, n_cand, b) && wfe_at(costs, cands, b) is None
    ||| {
        &&& considered(costs, ids, cands, n_cand, b)
        &&& wfe_at(costs, cands, b) is Some
        &&& forall|f: int|
            first_considered(costs, ids, cands, n_cand, f) ==> wfe_at(costs, cands, f) is Some
        &&& forall|t: int|
            considered(costs, ids, cands, n_cand, t) && wfe_at(costs, cands, t) is Some
                ==> key_precedes(
                wfe_at(costs, cands, b)->0,
                b,
                wfe_at(costs, cands, t)->0,
                t,
            )
    }
}

/// The SH guide star triplet and the probes that serve it.
#[derive(Debug, Clone, Copy, PartialEq, Eq)]
pub struct ShChoice {
    /// The three stars.
    pub star_indices: [usize; 3],
    /// The probes that serve them, as positions in the list of probes searched.
    pub probe_indices: [usize; 3],
    /// Whether two stars completed the first one; when none did, the last two
    /// entries of `star_indices` are 0.
    pub azimuth_matched: bool,
}

/// `c` describes the triplet tried at position `b`.
pub open spec fn choice_at(costs: ShCosts, ids: Seq<usize>, cands: Seq<usize>, b: int, c: ShChoice) -> bool {
    let tr = triplet_at(costs, cands, b);
    let a = assignment_at(costs, ids, cands, b);
    let pr = a->0;
    &&& a is Some
    &&& c.star_indices[0] as int == tr.0
    &&& c.star_indices[1] as int == tr.1
    &&& c.star_indices[2] as int == tr.2
    &&& c.probe_indices[0] as int == pr.0
    &&& c.probe_indices[1] as int == pr.1
    &&& c.probe_indices[2] as int == pr.2
    &&& c.azimuth_matched == pair_matched(costs.azimuth, cands, tr.0)
}

/// What the SH triplet search answers for the probes `ids` of `probes`,
/// `n` stars, the keys `costs` and at most `n_cand` weighed triplets.
pub open spec fn sh_outcome(
    probes: Seq<ProbeState>,
    ids: Seq<usize>,
    n: nat,
    costs: ShCosts,
    n_cand: nat,
    r: Result<ShChoice, AtpError>,
) -> bool {
    let cands = stars_in_union(probes, ids, n);
    if ids.len() < 3 {
        r matches Err(AtpError::Config(m)) && m@ == "Need at least 3 probes for SH triplet"@
    } else if cands.len() < 3 {
        r matches Err(AtpError::Catalog(m)) && m@ == "Not enough reachable stars for SH triplet"@
    } else if exists|t: int| considered(costs, ids, cands, n_cand, t) {
        r matches Ok(c) && exists|b: int|
            is_sh_best(costs, ids, cands, n_cand, b) && choice_at(costs, ids, cands, b, c)
    } else {
        r matches Err(AtpError::Catalog(m)) && m@ == "No valid SH triplet found"@
    }
}

/// Later positions have no fewer triplets with probes before them.
proof fn lemma_tested_monotonic(costs: ShCosts, ids: Seq<usize>, cands: Seq<usize>, t: nat, u: nat)
    requires
        t <= u,
    ensures
        tested_before(costs, ids, cands, t) <= tested_before(costs, ids, cands, u),
    decreases u - t,
{
    if t < u {
        lemma_tested_monotonic(costs, ids, cands, t, (u - 1) as nat);
    }
}

fn wfe_less(a: Option<u64>, b: Option<u64>) -> (r: bool)
    ensures
        r == (a is Some && b is Some && a->0 < b->0),
{
    match (a, b) {
        (Some(x), Some(y)) => x < y,
        _ => false,
    }
}

/// The SH triplet search over the probes `ids` of `probes`.
fn search_triplet(
    probes: &Vec<ProbeState>,
    ids: &Vec<usize>,
    n_stars: usize,
    costs: &ShCosts,
    n_candidates: usize,
) -> (r: Result<ShChoice, AtpError>)
    requires
        ids@.len() >= 3 ==> lists_within(probes@, ids@, n_stars as nat),
    ensures
        sh_outcome(probes@, ids@, n_stars as nat, *costs, n_candidates as nat, r),
{
    if ids.len() < 3 {
        return Err(AtpError::Config(String::from_str("Need at least 3 probes for SH triplet")));
    }
    let cands = reachable_union(probes, ids, n_stars);
    proof {
        lemma_stars_in_union(probes@, ids@, n_stars as nat);
    }
    let m = cands.len();
    if m < 3 {
        return Err(
            AtpError::Catalog(String::from_str("Not enough reachable stars for SH triplet")),
        );
    }
    let ghost c = *costs;
    let mut best: Option<ShChoice> = None;
    let mut best_wfe: Option<u64> = None;
    let ghost mut pos: int = 0;
    let mut n_tested: usize = 0;
    let mut t: usize = 0;
    while t < m && n_tested < n_candidates
        invariant
            m == cands@.len(),
            t <= m,
            c == *costs,
            strictly_increasing(cands@),
            n_tested == tested_before(c, ids@, cands@, t as nat),
            n_tested <= t,
            forall|u: int|
                0 <= u < t ==> (considered(c, ids@, cands@, n_candidates as nat, u) <==> assignment_at(
                    c,
                    ids@,
                    cands@,
                    u,
                ) is Some),
            match best {
                None => forall|u: int| 0 <= u < t ==> !considered(c, ids@, cands@, n_candidates as nat, u),
                Some(ch) => {
                    &&& 0 <= pos < t
                    &&& considered(c, ids@, cands@, n_candidates as nat, pos)
                    &&& choice_at(c, ids@, cands@, pos, ch)
                    &&& best_wfe == wfe_at(c, cands@, pos)
                    &&& {
                        ||| (forall|u: int| 0 <= u < pos ==> !considered(c, ids@, cands@, n_candidates as nat, u))
                            && best_wfe is None
                        ||| {
                            &&& best_wfe is Some
                            &&& forall|f: int|
                                0 <= f < t && first_considered(c, ids@, cands@, n_candidates as nat, f)
                                    ==> wfe_at(c, cands@, f) is Some
                            &&& forall|u: int|
                                0 <= u < t && considered(c, ids@, cands@, n_candidates as nat, u)
                                    && wfe_at(c, cands@, u) is Some ==> key_precedes(
                                    best_wfe->0,
                                    pos,
                                    wfe_at(c, cands@, u)->0,
                                    u,
                                )
                        }
                    }
                },
            },
        decreases m - t,
    {
        let i = cands[t];
        let (j, k, matched) = best_pair(&costs.azimuth, &cands, i);
        assert(triplet_at(c, cands@, t as int) == (i as int, j as int, k as int));
        let assigned = assign_triplet_to_probes([i, j, k], &costs.dist, ids);
        assert(considered(c, ids@, cands@, n_candidates as nat, t as int) <==> assigned is Some);
        match assigned {
            Some(a) => {
                let w = get3(&costs.wfe, i, j, k);
                let replace = match best {
                    None => true,
                    Some(_) => wfe_less(w, best_wfe),
                };
                if replace {
                    best = Some(ShChoice { star_indices: [i, j, k], probe_indices: a, azimuth_matched: matched });
                    best_wfe = w;
                    proof {
                        pos = t as int;
                    }
                }
                n_tested = n_tested + 1;
            },
            None => {},
        }
        t = t + 1;
    }
    proof {
        assert forall|u: int| t <= u implies !considered(c, ids@, cands@, n_candidates as nat, u) by {
            if u < m {
                lemma_tested_monotonic(c, ids@, cands@, t as nat, u as nat);
            }
        }
    }
    match best {
        Some(ch) => {
            assert(is_sh_best(c, ids@, cands@, n_candidates as nat, pos));
            Ok(ch)
        },
        None => {
            assert forall|u: int| !considered(c, ids@, cands@, n_candidates as nat, u) by {
                if 0 <= u < t {
                } else if u >= t {
                }
            }
            Err(AtpError::Catalog(String::from_str("No valid SH triplet found")))
        },
    }
}

/// The positions `0, 1, ..., n - 1`.
pub open spec fn all_positions(n: nat) -> Seq<usize> {
    Seq::new(n, |q: int| q as usize)
}

/// The positions `0, ..., n - 1` without `p`, in increasing order.
pub open spec fn positions_without(n: nat, p: int) -> Seq<usize> {
    Seq::new((n - 1) as nat, |q: int| if q < p { q as usize } else { (q + 1) as usize })
}

/// Every star in the reach list of every probe is below `n`.
pub open spec fn reach_lists_below(probes: Seq<ProbeState>, n: nat) -> bool {
    forall|p: int, k: int|
        0 <= p < probes.len() && 0 <= k < probes[p].reachable_stars@.len()
            ==> probes[p].reachable_stars@[k] < n
}

/// Finds the Shack-Hartmann (SH) guide star triplet among the stars that the
/// `probes` can reach between them.
///
/// The candidate stars are those in some probe's reach list, in increasing
/// order.  Around each candidate in turn, the two other candidates of least
/// azimuth mismatch complete a triplet, which the probes then serve, each star
/// taking the nearest free probe that reaches it.  Of the triplets that find
/// probes (at most `n_candidates` of them, after which the search stops), the
/// one of least wavefront error is kept.  `probe_indices` are indices into
/// `probes`.
pub fn find_sh_guide_stars(
    probes: &Vec<ProbeState>,
    n_stars: usize,
    costs: &ShCosts,
    n_candidates: usize,
) -> (r: Result<ShChoice, AtpError>)
    requires
        probes@.len() >= 3 ==> reach_lists_below(probes@, n_stars as nat),
    ensures
        sh_outcome(
            probes@,
            all_positions(probes@.len()),
            n_stars as nat,
            *costs,
            n_candidates as nat,
            r,
        ),
{
    let n = probes.len();
    let mut ids: Vec<usize> = Vec::new();
    let mut q: usize = 0;
    while q < n
        invariant
            n == probes@.len(),
            q <= n,
            ids@ == all_positions(q as nat),
        decreases n - q,
    {
        ids.push(q);
        q = q + 1;
        assert(ids@ =~= all_positions(q as nat));
    }
    search_triplet(probes, &ids, n_stars, costs, n_candidates)
}

/// The TT7 search fails: there are no stars, or no probe reaches any.
pub open spec fn tt7_fails(keys: Seq<u64>, reach: Seq<Vec<bool>>) -> bool {
    keys.len() == 0 || forall|s: int| 0 <= s < keys.len() ==> !reachable_by_some(reach, s)
}

/// The tip-tilt part of a complete selection.
pub open spec fn tt7_part(r: Result<(Tt7Choice, ShChoice), AtpError>) -> Result<Tt7Choice, AtpError> {
    match r {
        Ok(pair) => Ok(pair.0),
        Err(e) => Err(e),
    }
}

/// Runs the whole selection.
///
/// Each probe first records the stars within its range (`in_range[p][s]`
/// tells whether probe `p` reaches star `s`).  The tip-tilt star is chosen
/// (see `find_tt7_guide_star`) and assigned to the probe that serves it.  The
/// SH triplet is then searched among the other probes, in their order, whose
/// positions in that list are the answer's `probe_indices`.  The probes keep
/// their reach lists and the tip-tilt assignment even when the SH search
/// fails.
pub fn select_all_guide_stars(
    probes: &mut Vec<ProbeState>,
    in_range: &Vec<Vec<bool>>,
    error_keys: &Vec<u64>,
    costs: &ShCosts,
    n_sh_candidates: usize,
) -> (r: Result<(Tt7Choice, ShChoice), AtpError>)
    requires
        in_range@.len() == old(probes)@.len(),
        forall|p: int| 0 <= p < in_range@.len() ==> in_range@[p]@.len() == error_keys@.len(),
    ensures
        final(probes)@.len() == old(probes)@.len(),
        forall|p: int|
            0 <= p < final(probes)@.len() ==> is_reach_list(
                final(probes)@[p].reachable_stars@,
                in_range@[p]@,
            ),
        tt7_fails(error_keys@, in_range@) ==> {
            &&& tt7_outcome(error_keys@, in_range@, tt7_part(r))
            &&& forall|p: int|
                0 <= p < final(probes)@.len() ==> final(probes)@[p].gs_idx == old(probes)@[p].gs_idx
        },
        !tt7_fails(error_keys@, in_range@) ==> exists|c: Tt7Choice|
            {
                &&& tt7_outcome(error_keys@, in_range@, Ok(c))
                &&& final(probes)@[c.probe_idx as int].gs_idx == Some(c.star_idx)
                &&& forall|p: int|
                    0 <= p < final(probes)@.len() && p != c.probe_idx ==> final(probes)@[p].gs_idx
                        == old(probes)@[p].gs_idx
                &&& if old(probes)@.len() - 1 < 3 {
                    r matches Err(AtpError::Config(m)) && m@ == "Not enough probes remaining for SH"@
                } else {
                    &&& r matches Ok(pair) ==> pair.0 == c && sh_outcome(
                        final(probes)@,
                        positions_without(old(probes)@.len(), c.probe_idx as int),
                        error_keys@.len(),
                        *costs,
                        n_sh_candidates as nat,
                        Ok(pair.1),
                    )
                    &&& r matches Err(e) ==> sh_outcome(
                        final(probes)@,
                        positions_without(old(probes)@.len(), c.probe_idx as int),
                        error_keys@.len(),
                        *costs,
                        n_sh_candidates as nat,
                        Err(e),
                    )
                }
            },
{
    let n = probes.len();
    let n_stars = error_keys.len();
    let mut p: usize = 0;
    while p < n
        invariant
            n == probes@.len(),
            n == in_range@.len(),
            p <= n,
            forall|q: int| 0 <= q < in_range@.len() ==> in_range@[q]@.len() == n_stars,
            n_stars == error_keys@.len(),
            forall|q: int|
                0 <= q < p ==> is_reach_list(probes@[q].reachable_stars@, in_range@[q]@),
            forall|q: int| 0 <= q < n ==> probes@[q].gs_idx == old(probes)@[q].gs_idx,
        decreases n - p,
    {
        probes[p].reach_for_the_stars(&in_range[p]);
        p = p + 1;
    }
    let tt7 = match find_tt7_guide_star(error_keys, in_range) {
        Ok(c) => c,
        Err(e) => return Err(e),
    };
    let ghost reached = probes@;
    probes[tt7.probe_idx].assign_guide_star(tt7.star_idx);
    assert forall|q: int| 0 <= q < n implies probes@[q].reachable_stars@ == reached[q].reachable_stars@ by {}
    if n - 1 < 3 {
        return Err(AtpError::Config(String::from_str("Not enough probes remaining for SH")));
    }
    let mut ids: Vec<usize> = Vec::new();
    let mut q: usize = 0;
    while q < n
        invariant
            n == probes@.len(),
            tt7.probe_idx < n,
            q <= n,
            ids@ == (if q <= tt7.probe_idx { all_positions(q as nat) } else {
                positions_without(q as nat, tt7.probe_idx as int)
            }),
        decreases n - q,
    {
        if q != tt7.probe_idx {
            ids.push(q);
        }
        q = q + 1;
        assert(ids@ =~= (if q <= tt7.probe_idx { all_positions(q as nat) } else {
            positions_without(q as nat, tt7.probe_idx as int)
        }));
    }
    proof {
        assert forall|a: int, k: int|
            0 <= a < ids@.len() && 0 <= k < probes@[ids@[a] as int].reachable_stars@.len() implies probes@[ids@[a] as int].reachable_stars@[k]
            < n_stars by {
            let pp = ids@[a] as int;
            assert(is_reach_list(probes@[pp].reachable_stars@, in_range@[pp]@));
        }
    }
    match search_triplet(probes, &ids, n_stars, costs, n_sh_candidates) {
        Ok(sh) => Ok((tt7, sh)),
        Err(e) => Err(e),
    }
}

/// The tip-tilt choice is determined: at most one star is first in the order
/// of error among the reachable stars.
pub proof fn lemma_tt7_choice_unique(keys: Seq<u64>, reach: Seq<Vec<bool>>, s: int, t: int)
    requires
        is_tt7_choice(keys, reach, s),
        is_tt7_choice(keys, reach, t),
    ensures
        s == t,
{
    assert(key_precedes(keys[s], s, keys[t], t));
    assert(key_precedes(keys[t], t, keys[s], s));
}

/// A pick is a free probe position that reaches the star.
proof fn lemma_pick_is_candidate(dist: Vec<Vec<Option<u64>>>, ids: Seq<usize>, taken: Seq<usize>, s: int)
    requires
        pick(dist, ids, taken, s) is Some,
    ensures
        is_pick(dist, ids, taken, s, pick(dist, ids, taken, s)->0),
{
}

/// The probes that serve a triplet are three different probes, each of which
/// reaches its star, and each the nearest of those still free when its star
/// took it.
pub proof fn lemma_greedy_assignment_valid(
    dist: Vec<Vec<Option<u64>>>,
    ids: Seq<usize>,
    stars: (int, int, int),
)
    requires
        greedy_assignment(dist, ids, stars) is Some,
    ensures
        ({
            let a = greedy_assignment(dist, ids, stars)->0;
            &&& 0 <= a.0 < ids.len() && 0 <= a.1 < ids.len() && 0 <= a.2 < ids.len()
            &&& a.0 != a.1 && a.0 != a.2 && a.1 != a.2
            &&& at2(dist, ids[a.0] as int, stars.0) is Some
            &&& at2(dist, ids[a.1] as int, stars.1) is Some
            &&& at2(dist, ids[a.2] as int, stars.2) is Some
            &&& is_pick(dist, ids, seq![], stars.0, a.0)
            &&& is_pick(dist, ids, seq![a.0 as usize], stars.1, a.1)
            &&& is_pick(dist, ids, seq![a.0 as usize, a.1 as usize], stars.2, a.2)
        }),
{
    let p0 = pick(dist, ids, seq![], stars.0)->0;
    lemma_pick_is_candidate(dist, ids, seq![], stars.0);
    let p1 = pick(dist, ids, seq![p0 as usize], stars.1)->0;
    lemma_pick_is_candidate(dist, ids, seq![p0 as usize], stars.1);
    let p2 = pick(dist, ids, seq![p0 as usize, p1 as usize], stars.2)->0;
    lemma_pick_is_candidate(dist, ids, seq![p0 as usize, p1 as usize], stars.2);
    let t1 = seq![p0 as usize];
    let t2 = seq![p0 as usize, p1 as usize];
    assert(t1[0] == p0 as usize);
    assert(t2[0] == p0 as usize);
    assert(t2[1] == p1 as usize);
    if p1 == p0 {
        assert(t1.contains(p1 as usize));
    }
    if p2 == p0 {
        assert(t2.contains(p2 as usize));
    }
    if p2 == p1 {
        assert(t2.contains(p2 as usize));
    }
    assert(greedy_assignment(dist, ids, stars) == Some((p0, p1, p2)));
}

/// When a pair completes the triplet around star `i`, the three stars are
/// different candidates.
pub proof fn lemma_matched_triplet_distinct(az: Vec<Vec<Vec<Option<u64>>>>, r: Seq<usize>, i: int)
    requires
        pair_matched(az, r, i),
    ensures
        ({
            let pr = best_pair_of(az, r, i);
            &&& in_list(r, pr.0) && in_list(r, pr.1)
            &&& pr.0 != i && pr.1 != i && pr.0 != pr.1
        }),
{
}

/// The search keeps one triplet at most: the kept position is determined.
pub proof fn lemma_sh_best_unique(
    costs: ShCosts,
    ids: Seq<usize>,
    cands: Seq<usize>,
    n_cand: nat,
    b1: int,
    b2: int,
)
    requires
        is_sh_best(costs, ids, cands, n_cand, b1),
        is_sh_best(costs, ids, cands, n_cand, b2),
    ensures
        b1 == b2,
{
    if first_considered(costs, ids, cands, n_cand, b1) && wfe_at(costs, cands, b1) is None {
        if !(first_considered(costs, ids, cands, n_cand, b2) && wfe_at(costs, cands, b2) is None) {
            assert(wfe_at(costs, cands, b1) is Some);
        }
    } else if first_considered(costs, ids, cands, n_cand, b2) && wfe_at(costs, cands, b2) is None {
        assert(wfe_at(costs, cands, b2) is Some);
    } else {
        assert(key_precedes(wfe_at(costs, cands, b1)->0, b1, wfe_at(costs, cands, b2)->0, b2));
        assert(key_precedes(wfe_at(costs, cands, b2)->0, b2, wfe_at(costs, cands, b1)->0, b1));
    }
}

/// How many positions before `t` are weighed.
pub open spec fn weighed_before(
    costs: ShCosts,
    ids: Seq<usize>,
    cands: Seq<usize>,
    n_cand: nat,
    t: nat,
) -> nat
    decreases t,
{
    if t == 0 {
        0
    } else {
        weighed_before(costs, ids, cands, n_cand, (t - 1) as nat) + if considered(
            costs,
            ids,
            cands,
            n_cand,
            t - 1,
        ) {
            1nat
        } else {
            0nat
        }
    }
}

/// The SH search weighs at most `n_cand` triplets.
pub proof fn lemma_weighed_at_most(
    costs: ShCosts,
    ids: Seq<usize>,
    cands: Seq<usize>,
    n_cand: nat,
    t: nat,
)
    ensures
        weighed_before(costs, ids, cands, n_cand, t) <= n_cand,
        weighed_before(costs, ids, cands, n_cand, t) <= tested_before(costs, ids, cands, t),
    decreases t,
{
    if t > 0 {
        lemma_weighed_at_most(costs, ids, cands, n_cand, (t - 1) as nat);
    }
}

/// The probes left to the SH search are all probes but the tip-tilt probe,
/// each once, in their order.
pub proof fn lemma_positions_without(n: nat, p: int)
    requires
        0 <= p < n,
        n <= usize::MAX,
    ensures
        positions_without(n, p).len() == n - 1,
        forall|q: int| 0 <= q < n - 1 ==> positions_without(n, p)[q] != p && positions_without(n, p)[q] < n,
        strictly_increasing(positions_without(n, p)),
        forall|x: int| 0 <= x < n && x != p ==> in_list(positions_without(n, p), x),
{
    assert forall|x: int| 0 <= x < n && x != p implies in_list(positions_without(n, p), x) by {
        if x < p {
            assert(positions_without(n, p)[x] as int == x);
        } else {
            assert(positions_without(n, p)[x - 1] as int == x);
        }
    }
}

/// In a complete selection the probes are split: the SH triplet is served
/// by three different probes, none of them the tip-tilt probe `p`.
pub proof fn lemma_sh_probes_avoid_tt7(
    dist: Vec<Vec<Option<u64>>>,
    n: nat,
    p: int,
    stars: (int, int, int),
)
    requires
        0 <= p < n,
        n <= usize::MAX,
        greedy_assignment(dist, positions_without(n, p), stars) is Some,
    ensures
        ({
            let ids = positions_without(n, p);
            let a = greedy_assignment(dist, ids, stars)->0;
            &&& ids[a.0] != p && ids[a.1] != p && ids[a.2] != p
            &&& ids[a.0] != ids[a.1] && ids[a.0] != ids[a.2] && ids[a.1] != ids[a.2]
            &&& ids[a.0] < n && ids[a.1] < n && ids[a.2] < n
        }),
{
    lemma_positions_without(n, p);
    lemma_greedy_assignment_valid(dist, positions_without(n, p), stars);
}

/// Among the first `t` positions, the weighed ones number the assignable
/// ones, capped at `n_cand`.
proof fn lemma_weighed_is_capped_count(
    costs: ShCosts,
    ids: Seq<usize>,
    cands: Seq<usize>,
    n_cand: nat,
    t: nat,
)
    requires
        t <= cands.len(),
    ensures
        weighed_before(costs, ids, cands, n_cand, t) == if tested_before(costs, ids, cands, t) < n_cand {
            tested_before(costs, ids, cands, t)
        } else {
            n_cand
        },
    decreases t,
{
    if t > 0 {
        lemma_weighed_is_capped_count(costs, ids, cands, n_cand, (t - 1) as nat);
    }
}

/// Only triplets that find probes use up the `n_cand` slots of the SH
/// search: the triplet tried at `t` is weighed exactly when it finds probes
/// and fewer than `n_cand` triplets were weighed before it.  A triplet that
/// finds no probes never keeps a later one from being weighed.
pub proof fn lemma_only_assignable_triplets_use_slots(
    costs: ShCosts,
    ids: Seq<usize>,
    cands: Seq<usize>,
    n_cand: nat,
    t: int,
)
    requires
        0 <= t < cands.len(),
    ensures
        considered(costs, ids, cands, n_cand, t) <==> (assignment_at(costs, ids, cands, t) is Some
            && weighed_before(costs, ids, cands, n_cand, t as nat) < n_cand),
        assignment_at(costs, ids, cands, t) is None ==> weighed_before(
            costs,
            ids,
            cands,
            n_cand,
            (t + 1) as nat,
        ) == weighed_before(costs, ids, cands, n_cand, t as nat),
{
    lemma_weighed_is_capped_count(costs, ids, cands, n_cand, t as nat);
}

/// The best pair among the candidates at positions below `nb`, for a fixed
/// first star `j`: whether one exists, and the pair.
proof fn lemma_best_over_k(az: Vec<Vec<Vec<Option<u64>>>>, r: Seq<usize>, i: int, j: int, nb: nat) -> (res: (
    bool,
    int,
    int,
))
    requires
        nb <= r.len(),
    ensures
        res.0 ==> pair_valid(az, r, i, res.1, res.2),
        forall|b: int|
            0 <= b < nb && pair_valid(az, r, i, j, r[b] as int) ==> res.0 && pair_precedes(
                az,
                i,
                res.1,
                res.2,
                j,
                r[b] as int,
            ),
    decreases nb,
{
    if nb == 0 {
        (false, 0, 0)
    } else {
        let prev = lemma_best_over_k(az, r, i, j, (nb - 1) as nat);
        let k = r[nb - 1] as int;
        if pair_valid(az, r, i, j, k) {
            if prev.0 && pair_precedes(az, i, prev.1, prev.2, j, k) {
                prev
            } else {
                (true, j, k)
            }
        } else {
            prev
        }
    }
}

/// The best pair among the pairs whose first star is at a position below
/// `na`.
proof fn lemma_best_over_j(az: Vec<Vec<Vec<Option<u64>>>>, r: Seq<usize>, i: int, na: nat) -> (res: (
    bool,
    int,
    int,
))
    requires
        na <= r.len(),
    ensures
        res.0 ==> pair_valid(az, r, i, res.1, res.2),
        forall|a: int, b: int|
            0 <= a < na && 0 <= b < r.len() && pair_valid(az, r, i, r[a] as int, r[b] as int)
                ==> res.0 && pair_precedes(az, i, res.1, res.2, r[a] as int, r[b] as int),
    decreases na,
{
    if na == 0 {
        (false, 0, 0)
    } else {
        let prev = lemma_best_over_j(az, r, i, (na - 1) as nat);
        let j = r[na - 1] as int;
        let row = lemma_best_over_k(az, r, i, j, r.len());
        if row.0 {
            if prev.0 && pair_precedes(az, i, prev.1, prev.2, row.1, row.2) {
                prev
            } else {
                row
            }
        } else {
            prev
        }
    }
}

/// Every ordered pair of distinct candidates other than `i` whose azimuth
/// mismatch is a number may complete the triplet around `i`, whichever of the
/// two comes first: a pair is then matched, and its mismatch is no larger
/// than that of `(j, k)`.
pub proof fn lemma_every_ordered_pair_is_eligible(
    az: Vec<Vec<Vec<Option<u64>>>>,
    r: Seq<usize>,
    i: int,
    j: int,
    k: int,
)
    requires
        in_list(r, j),
        in_list(r, k),
        j != i,
        k != i,
        j != k,
        at3(az, i, j, k) is Some,
    ensures
        pair_matched(az, r, i),
        at3(az, i, best_pair_of(az, r, i).0, best_pair_of(az, r, i).1) is Some,
        at3(az, i, best_pair_of(az, r, i).0, best_pair_of(az, r, i).1)->0 <= at3(az, i, j, k)->0,
{
    let best = lemma_best_over_j(az, r, i, r.len());
    let a = choose|a: int| 0 <= a < r.len() && r[a] as int == j;
    let b = choose|b: int| 0 <= b < r.len() && r[b] as int == k;
    assert(pair_valid(az, r, i, r[a] as int, r[b] as int));
    assert forall|j2: int, k2: int| pair_valid(az, r, i, j2, k2) implies pair_precedes(
        az,
        i,
        best.1,
        best.2,
        j2,
        k2,
    ) by {
        let a2 = choose|a2: int| 0 <= a2 < r.len() && r[a2] as int == j2;
        let b2 = choose|b2: int| 0 <= b2 < r.len() && r[b2] as int == k2;
        assert(pair_valid(az, r, i, r[a2] as int, r[b2] as int));
    }
    assert(is_best_pair(az, r, i, best.1, best.2));
    let c = choose|jj: int, kk: int| is_best_pair(az, r, i, jj, kk);
    lemma_best_pair_unique(az, r, i, c.0, c.1, best.1, best.2);
    assert(pair_precedes(az, i, best.1, best.2, j, k));
}

/// The tip-tilt answer holds what it promises whatever the inputs: a chosen
/// star is reachable, served by the first probe that reaches it, and no
/// reachable star has a smaller error key; the search fails only when there
/// is no star or no star at all is reachable, and otherwise succeeds.
pub proof fn lemma_tt7_outcome_sound(keys: Seq<u64>, reach: Seq<Vec<bool>>, r: Result<Tt7Choice, AtpError>)
    requires
        tt7_outcome(keys, reach, r),
    ensures
        r matches Ok(c) ==> {
            &&& 0 <= c.star_idx < keys.len()
            &&& reaches(reach, c.probe_idx as int, c.star_idx as int)
            &&& forall|q: int| 0 <= q < c.probe_idx ==> !reaches(reach, q, c.star_idx as int)
            &&& forall|t: int|
                0 <= t < keys.len() && reachable_by_some(reach, t) ==> keys[c.star_idx as int]
                    <= keys[t]
            &&& forall|t: int|
                0 <= t < c.star_idx && reachable_by_some(reach, t) ==> keys[c.star_idx as int]
                    < keys[t]
        },
        r is Err ==> keys.len() == 0 || forall|s: int|
            0 <= s < keys.len() ==> !reachable_by_some(reach, s),
        (exists|s: int| 0 <= s < keys.len() && reachable_by_some(reach, s)) ==> r is Ok,
{
}

/// The tip-tilt search of a complete selection fails exactly when there is
/// no star or no star at all is reachable.
pub proof fn lemma_tt7_fails_exactly(keys: Seq<u64>, reach: Seq<Vec<bool>>)
    ensures
        tt7_fails(keys, reach) <==> (keys.len() == 0 || forall|s: int|
            0 <= s < keys.len() ==> !reachable_by_some(reach, s)),
        tt7_fails(keys, reach) <==> !(exists|s: int|
            0 <= s < keys.len() && reachable_by_some(reach, s)),
{
}

/// Three distinct listed stars make the union at least three long.
proof fn lemma_three_listed_stars(probes: Seq<ProbeState>, ids: Seq<usize>, n: nat, s1: int, s2: int, s3: int)
    requires
        0 <= s1 < s2 < s3 < n,
        listed_by_some(probes, ids, s1),
        listed_by_some(probes, ids, s2),
        listed_by_some(probes, ids, s3),
    ensures
        stars_in_union(probes, ids, n).len() >= 3,
{
    lemma_stars_in_union(probes, ids, n);
    let u = stars_in_union(probes, ids, n);
    assert(u.contains(s1 as usize));
    assert(u.contains(s2 as usize));
    assert(u.contains(s3 as usize));
    let i1 = choose|i: int| 0 <= i < u.len() && u[i] == s1 as usize;
    let i2 = choose|i: int| 0 <= i < u.len() && u[i] == s2 as usize;
    let i3 = choose|i: int| 0 <= i < u.len() && u[i] == s3 as usize;
    assert(i1 < i2);
    assert(i2 < i3);
}

/// With at least three probes, the SH search refuses for lack of stars only
/// when fewer than three stars are listed: three distinct listed stars below
/// `n` rule out the "not enough reachable stars" answer.
pub proof fn lemma_enough_stars_not_refused(
    probes: Seq<ProbeState>,
    ids: Seq<usize>,
    n: nat,
    costs: ShCosts,
    n_cand: nat,
    r: Result<ShChoice, AtpError>,
    s1: int,
    s2: int,
    s3: int,
)
    requires
        ids.len() >= 3,
        0 <= s1 < s2 < s3 < n,
        listed_by_some(probes, ids, s1),
        listed_by_some(probes, ids, s2),
        listed_by_some(probes, ids, s3),
        sh_outcome(probes, ids, n, costs, n_cand, r),
    ensures
        !(r matches Err(AtpError::Catalog(m)) && m@ == "Not enough reachable stars for SH triplet"@),
        r is Ok || (r matches Err(AtpError::Catalog(m)) && m@ == "No valid SH triplet found"@),
{
    lemma_three_listed_stars(probes, ids, n, s1, s2, s3);
    reveal_strlit("Not enough reachable stars for SH triplet");
    reveal_strlit("No valid SH triplet found");
    assert("Not enough reachable stars for SH triplet"@.len() == 41);
    assert("No valid SH triplet found"@.len() == 25);
}

} // verus!
