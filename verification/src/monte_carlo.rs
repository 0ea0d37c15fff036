use vstd::prelude::*;
use vstd::string::*;
use crate::errors::AtpError;
use crate::selection::key_precedes;

verus! {

/// `i` is the candidate kept: its simulation succeeded, and its median
/// wavefront error is the least among the candidates that succeeded (the
/// earlier candidate on equal medians).
pub open spec fn is_optimal_candidate(medians: Seq<Option<u64>>, i: int) -> bool {
    &&& 0 <= i < medians.len()
    &&& medians[i] is Some
    &&& forall|j: int|
        0 <= j < medians.len() && medians[j] is Some ==> key_precedes(
            medians[i]->0,
            i,
            medians[j]->0,
            j,
        )
}

/// Picks the optimal triplet among simulated candidates.
///
/// `medians[i]` is the order key of the median wavefront error that the
/// simulation of candidate `i` gave, or `None` when that simulation failed.
pub fn find_optimal_triplet(medians: &Vec<Option<u64>>) -> (r: Result<usize, AtpError>)
    ensures
        medians@.len() == 0 ==> (r matches Err(AtpError::GuideStarSelection(m)) && m@
            == "No candidate triplets provided"@),
        medians@.len() > 0 && (forall|j: int| 0 <= j < medians@.len() ==> medians@[j] is None)
            ==> (r matches Err(AtpError::GuideStarSelection(m)) && m@
            == "All candidate triplets failed simulation"@),
        (exists|j: int| 0 <= j < medians@.len() && medians@[j] is Some) ==> (r matches Ok(i)
            && is_optimal_candidate(medians@, i as int)),
{
    let n = medians.len();
    if n == 0 {
        return Err(AtpError::GuideStarSelection(String::from_str("No candidate triplets provided")));
    }
    let mut best: Option<usize> = None;
    let mut best_key: u64 = 0;
    let mut i: usize = 0;
    while i < n
        invariant
            n == medians@.len(),
            i <= n,
            match best {
                None => forall|j: int| 0 <= j < i ==> medians@[j] is None,
                Some(b) => {
                    &&& b < i
                    &&& medians@[b as int] == Some(best_key)
                    &&& forall|j: int|
                        0 <= j < i && medians@[j] is Some ==> key_precedes(
                            best_key,
                            b as int,
                            medians@[j]->0,
                            j,
                        )
                },
            },
        decreases n - i,
    {
        match medians[i] {
            Some(k) => {
                let better = match best {
                    None => true,
                    Some(_) => k < best_key,
                };
                if better {
                    best = Some(i);
                    best_key = k;
                }
            },
            None => {},
        }
        i = i + 1;
    }
    match best {
        Some(b) => Ok(b),
        None => Err(
            AtpError::GuideStarSelection(String::from_str("All candidate triplets failed simulation")),
        ),
    }
}

} // verus!
