use vstd::prelude::*;

verus! {

/// `list` holds, in increasing order, exactly the star indices `s` for which
/// `in_range[s]` holds.
pub open spec fn is_reach_list(list: Seq<usize>, in_range: Seq<bool>) -> bool {
    &&& forall|i: int, j: int| 0 <= i < j < list.len() ==> list[i] < list[j]
    &&& forall|k: int| 0 <= k < list.len() ==> list[k] < in_range.len() && in_range[list[k] as int]
    &&& forall|s: int| 0 <= s < in_range.len() && in_range[s] ==> list.contains(s as usize)
}

/// A probe never reaches more stars than the field holds: a reach list is no
/// longer than the mask it was built from.
pub proof fn lemma_reach_list_len(list: Seq<usize>, in_range: Seq<bool>)
    requires
        is_reach_list(list, in_range),
    ensures
        list.len() <= in_range.len(),
{
    if list.len() > 0 {
        assert forall|k: int| 0 <= k < list.len() implies list[k] >= k by {
            lemma_increasing_at_least_index(list, k);
        }
        assert(list[list.len() - 1] >= list.len() - 1);
    }
}

proof fn lemma_increasing_at_least_index(list: Seq<usize>, k: int)
    requires
        0 <= k < list.len(),
        forall|i: int, j: int| 0 <= i < j < list.len() ==> list[i] < list[j],
    ensures
        list[k] >= k,
    decreases k,
{
    if k > 0 {
        lemma_increasing_at_least_index(list, k - 1);
    }
}

/// The reach list is determined by which stars are in range: two reach lists
/// of the same mask are equal.
pub proof fn lemma_reach_list_unique(a: Seq<usize>, b: Seq<usize>, in_range: Seq<bool>)
    requires
        is_reach_list(a, in_range),
        is_reach_list(b, in_range),
    ensures
        a == b,
{
    assert forall|k: int| 0 <= k < a.len() && k < b.len() implies a[k] == b[k] by {
        lemma_reach_lists_agree_upto(a, b, in_range, k);
    }
    lemma_reach_list_tail(a, b, in_range);
    lemma_reach_list_tail(b, a, in_range);
    assert(a =~= b);
}

proof fn lemma_reach_lists_agree_upto(a: Seq<usize>, b: Seq<usize>, in_range: Seq<bool>, k: int)
    requires
        is_reach_list(a, in_range),
        is_reach_list(b, in_range),
        0 <= k < a.len(),
        k < b.len(),
    ensures
        forall|i: int| 0 <= i <= k ==> a[i] == b[i],
    decreases k,
{
    if k > 0 {
        lemma_reach_lists_agree_upto(a, b, in_range, k - 1);
    }
    let j = choose|j: int| 0 <= j < b.len() && b[j] == a[k];
    let i = choose|i: int| 0 <= i < a.len() && a[i] == b[k];
    if j < k {
        assert(a[j] == b[j]);
    }
    if i < k {
        assert(a[i] == b[i]);
    }
}

proof fn lemma_reach_list_tail(a: Seq<usize>, b: Seq<usize>, in_range: Seq<bool>)
    requires
        is_reach_list(a, in_range),
        is_reach_list(b, in_range),
        forall|k: int| 0 <= k < a.len() && k < b.len() ==> a[k] == b[k],
    ensures
        b.len() <= a.len(),
{
    if a.len() < b.len() {
        let s = b[a.len() as int];
        let i = choose|i: int| 0 <= i < a.len() && a[i] == s;
        assert(b[i] == s);
    }
}

/// The guide-star bookkeeping of one AGWS probe arm: the star it is assigned
/// to, if any, and the stars within its patrol range.
#[derive(Debug, Clone)]
pub struct ProbeState {
    /// Index of the assigned guide star.
    pub gs_idx: Option<usize>,
    /// Indices of the stars within the patrol range, in increasing order.
    pub reachable_stars: Vec<usize>,
}

impl ProbeState {
    /// A probe with no guide star and no star known to be within reach.
    pub fn new() -> (p: ProbeState)
        ensures
            p.gs_idx is None,
            p.reachable_stars@ == Seq::<usize>::empty(),
    {
        ProbeState { gs_idx: None, reachable_stars: Vec::new() }
    }

    /// Records which stars are within the patrol range: `in_range[s]` tells
    /// whether star `s` lies within it.  The list is rebuilt from scratch.
    pub fn reach_for_the_stars(&mut self, in_range: &Vec<bool>)
        ensures
            final(self).gs_idx == old(self).gs_idx,
            is_reach_list(final(self).reachable_stars@, in_range@),
    {
        self.reachable_stars.clear();
        let n = in_range.len();
        let mut idx: usize = 0;
        while idx < n
            invariant
                n == in_range@.len(),
                idx <= n,
                self.gs_idx == old(self).gs_idx,
                forall|i: int, j: int|
                    0 <= i < j < self.reachable_stars@.len() ==> self.reachable_stars@[i]
                        < self.reachable_stars@[j],
                forall|k: int|
                    0 <= k < self.reachable_stars@.len() ==> self.reachable_stars@[k] < idx
                        && in_range@[self.reachable_stars@[k] as int],
                forall|s: int|
                    0 <= s < idx && in_range@[s] ==> self.reachable_stars@.contains(s as usize),
            decreases n - idx,
        {
            if in_range[idx] {
                let ghost before = self.reachable_stars@;
                self.reachable_stars.push(idx);
                proof {
                    assert forall|s: int|
                        0 <= s < idx + 1 && in_range@[s] implies self.reachable_stars@.contains(
                        s as usize,
                    ) by {
                        if s < idx {
                            let k = choose|k: int| 0 <= k < before.len() && before[k] == s as usize;
                            assert(self.reachable_stars@[k] == s as usize);
                        } else {
                            assert(self.reachable_stars@[before.len() as int] == s as usize);
                        }
                    }
                }
            }
            idx = idx + 1;
        }
    }

    /// The number of stars within reach.
    pub fn num_reachable(&self) -> (r: usize)
        ensures
            r == self.reachable_stars@.len(),
    {
        self.reachable_stars.len()
    }

    /// The assigned guide star, if any.
    pub fn guide_star(&self) -> (r: Option<usize>)
        ensures
            r == self.gs_idx,
    {
        self.gs_idx
    }

    /// Assigns star `star_idx` to the probe.
    pub fn assign_guide_star(&mut self, star_idx: usize)
        ensures
            final(self).gs_idx == Some(star_idx),
            final(self).reachable_stars@ == old(self).reachable_stars@,
    {
        self.gs_idx = Some(star_idx);
    }

    /// Releases the probe's guide star.
    pub fn clear_guide_star(&mut self)
        ensures
            final(self).gs_idx is None,
            final(self).reachable_stars@ == old(self).reachable_stars@,
    {
        self.gs_idx = None;
    }
}

} // verus!
