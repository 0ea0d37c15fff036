use atp_rs::errors::AtpError;
use atp_rs::monte_carlo::find_optimal_triplet;
use atp_rs::probe::ProbeState;
use atp_rs::selection::{
    assign_triplet_to_probes, find_sh_guide_stars, find_tt7_guide_star, reachable_union,
    select_all_guide_stars, ShChoice, ShCosts, Tt7Choice,
};

fn probe_reaching(mask: Vec<bool>) -> ProbeState {
    let mut p = ProbeState::new();
    p.reach_for_the_stars(&mask);
    p
}

fn catalog_message(r: &Result<impl std::fmt::Debug, AtpError>) -> String {
    match r {
        Err(AtpError::Catalog(m)) => m.clone(),
        other => panic!("expected a catalog error, got {:?}", other),
    }
}

// Four stars; probes p0..p3 reach them as below (distance keys in brackets).
//   p0: 0 [1], 1 [5], 3 [9]
//   p1: 1 [2], 2 [4], 3 [6]
//   p2: 2 [3], 3 [1]
//   p3: 0 [2]
fn distances() -> Vec<Vec<Option<u64>>> {
    vec![
        vec![Some(1), Some(5), None, Some(9)],
        vec![None, Some(2), Some(4), Some(6)],
        vec![None, None, Some(3), Some(1)],
        vec![Some(2), None, None, None],
    ]
}

fn in_range() -> Vec<Vec<bool>> {
    distances().iter().map(|row| row.iter().map(|d| d.is_some()).collect()).collect()
}

fn costs(wfe_0_2_3: Option<u64>) -> ShCosts {
    let mut azimuth = vec![vec![vec![None; 4]; 4]; 4];
    azimuth[0][1][2] = Some(10);
    azimuth[0][2][3] = Some(4);
    azimuth[1][0][2] = Some(7);
    azimuth[1][2][3] = Some(2);
    azimuth[3][0][1] = Some(1);
    let mut wfe = vec![vec![vec![Some(1000); 4]; 4]; 4];
    wfe[0][2][3] = wfe_0_2_3;
    wfe[1][2][3] = Some(30);
    wfe[3][0][1] = Some(30);
    ShCosts { dist: distances(), azimuth, wfe }
}

fn three_probes() -> Vec<ProbeState> {
    in_range().into_iter().take(3).map(probe_reaching).collect()
}

#[test]
fn tt7_picks_least_error_reachable_star() {
    let keys = vec![5, 3, 3, 1];
    let reach = vec![vec![true, false, true, false], vec![false, true, true, false]];
    let r = find_tt7_guide_star(&keys, &reach).unwrap();
    assert_eq!(r, Tt7Choice { star_idx: 1, probe_idx: 1 });
}

#[test]
fn tt7_uses_first_probe_that_reaches() {
    let keys = vec![4, 2];
    let reach = vec![vec![true, false], vec![true, true], vec![false, true]];
    let r = find_tt7_guide_star(&keys, &reach).unwrap();
    assert_eq!(r, Tt7Choice { star_idx: 1, probe_idx: 1 });
    assert!(r.star_idx < keys.len());
    assert!(r.probe_idx < reach.len());
}

#[test]
fn tt7_short_rows_mean_out_of_reach() {
    let keys = vec![9, 1, 5];
    let reach = vec![vec![true], vec![false, false, true]];
    let r = find_tt7_guide_star(&keys, &reach).unwrap();
    assert_eq!(r, Tt7Choice { star_idx: 2, probe_idx: 1 });
}

#[test]
fn tt7_without_stars() {
    let r = find_tt7_guide_star(&vec![], &vec![vec![]]);
    assert_eq!(catalog_message(&r), "No stars available");
}

#[test]
fn tt7_without_reachable_star() {
    let r = find_tt7_guide_star(&vec![1, 2], &vec![vec![false, false]]);
    assert_eq!(catalog_message(&r), "No reachable TT7 guide star found");
    let r = find_tt7_guide_star(&vec![1, 2], &vec![]);
    assert_eq!(catalog_message(&r), "No reachable TT7 guide star found");
}

#[test]
fn union_of_reach_lists() {
    let probes = vec![
        probe_reaching(vec![false, false, false, false, true, false]),
        probe_reaching(vec![false, true, false, false, true, false]),
        probe_reaching(vec![false, false, false, false, false, false]),
        probe_reaching(vec![true, false, false, false, false, false]),
    ];
    assert_eq!(reachable_union(&probes, &vec![0, 1, 2, 3], 6), vec![0, 1, 4]);
    assert_eq!(reachable_union(&probes, &vec![0, 2], 6), vec![4]);
    assert_eq!(reachable_union(&probes, &vec![], 6), Vec::<usize>::new());
}

#[test]
fn greedy_assignment_takes_nearest_free_probe() {
    let dist = distances();
    // star 3 takes p2 (key 1), star 1 takes p1 (2), star 0 takes p0 (1)
    assert_eq!(assign_triplet_to_probes([3, 1, 0], &dist, &vec![0, 1, 2, 3]), Some([2, 1, 0]));
    // star 0 takes p0, star 0 again takes p3, then star 1 takes p1
    assert_eq!(assign_triplet_to_probes([0, 0, 1], &dist, &vec![0, 1, 2, 3]), Some([0, 3, 1]));
    // only p3 reaches star 0 among positions [1, 2, 3]
    assert_eq!(assign_triplet_to_probes([0, 0, 1], &dist, &vec![1, 2, 3]), None);
    // positions index the probe list given
    assert_eq!(assign_triplet_to_probes([2, 3, 0], &dist, &vec![3, 2, 1]), Some([1, 2, 0]));
}

#[test]
fn greedy_assignment_breaks_ties_by_position() {
    let dist = vec![vec![Some(4)], vec![Some(4)], vec![Some(4)]];
    assert_eq!(assign_triplet_to_probes([0, 0, 0], &dist, &vec![0, 1, 2]), Some([0, 1, 2]));
    let a = assign_triplet_to_probes([0, 0, 0], &dist, &vec![2, 0, 1]).unwrap();
    assert_eq!(a, [0, 1, 2]);
    assert!(a[0] != a[1] && a[1] != a[2] && a[0] != a[2]);
}

#[test]
fn sh_keeps_triplet_of_least_wavefront_error() {
    let r = find_sh_guide_stars(&three_probes(), 4, &costs(Some(50)), 10).unwrap();
    assert_eq!(
        r,
        ShChoice { star_indices: [1, 2, 3], probe_indices: [1, 2, 0], azimuth_matched: true }
    );
}

#[test]
fn sh_stops_after_candidates_are_tested() {
    let r = find_sh_guide_stars(&three_probes(), 4, &costs(Some(50)), 1).unwrap();
    assert_eq!(
        r,
        ShChoice { star_indices: [0, 2, 3], probe_indices: [0, 2, 1], azimuth_matched: true }
    );
}

#[test]
fn sh_first_estimate_not_a_number_is_kept() {
    let r = find_sh_guide_stars(&three_probes(), 4, &costs(None), 10).unwrap();
    assert_eq!(r.star_indices, [0, 2, 3]);
}

#[test]
fn sh_errors() {
    let probes = three_probes();
    match find_sh_guide_stars(&probes[..2].to_vec(), 4, &costs(Some(50)), 10) {
        Err(AtpError::Config(m)) => assert_eq!(m, "Need at least 3 probes for SH triplet"),
        other => panic!("unexpected {:?}", other),
    }
    let few = vec![
        probe_reaching(vec![true, false, false, false]),
        probe_reaching(vec![true, true, false, false]),
        probe_reaching(vec![false, false, false, false]),
    ];
    let r = find_sh_guide_stars(&few, 4, &costs(Some(50)), 10);
    assert_eq!(catalog_message(&r), "Not enough reachable stars for SH triplet");
    let r = find_sh_guide_stars(&probes, 4, &costs(Some(50)), 0);
    assert_eq!(catalog_message(&r), "No valid SH triplet found");
}

#[test]
fn sh_without_azimuth_pair_uses_star_zero() {
    let probes = three_probes();
    let mut c = costs(Some(50));
    c.azimuth = vec![vec![vec![None; 4]; 4]; 4];
    // Around star 0 no pair qualifies: the triplet (0, 0, 0) needs three
    // probes that reach star 0, and only p0 does; so no triplet finds probes.
    let r = find_sh_guide_stars(&probes, 4, &c, 10);
    assert_eq!(catalog_message(&r), "No valid SH triplet found");
    let all_reach_zero = ShCosts {
        dist: vec![vec![Some(1); 4], vec![Some(2); 4], vec![Some(3); 4]],
        azimuth: c.azimuth.clone(),
        wfe: c.wfe.clone(),
    };
    let r = find_sh_guide_stars(&probes, 4, &all_reach_zero, 10).unwrap();
    assert_eq!(
        r,
        ShChoice { star_indices: [0, 0, 0], probe_indices: [0, 1, 2], azimuth_matched: false }
    );
}

#[test]
fn select_all_runs_tt7_then_sh_on_other_probes() {
    let mut probes: Vec<ProbeState> = (0..4).map(|_| ProbeState::new()).collect();
    let keys = vec![9, 8, 7, 2];
    let (tt7, sh) =
        select_all_guide_stars(&mut probes, &in_range(), &keys, &costs(Some(50)), 10).unwrap();
    assert_eq!(tt7, Tt7Choice { star_idx: 3, probe_idx: 0 });
    // SH probes are p1, p2, p3 at positions 0, 1, 2.
    assert_eq!(
        sh,
        ShChoice { star_indices: [3, 0, 1], probe_indices: [1, 2, 0], azimuth_matched: true }
    );
    assert_eq!(probes[0].guide_star(), Some(3));
    assert!(probes[1].guide_star().is_none());
    assert_eq!(probes[0].reachable_stars, vec![0, 1, 3]);
    assert_eq!(probes[1].reachable_stars, vec![1, 2, 3]);
    assert_eq!(probes[2].reachable_stars, vec![2, 3]);
    assert_eq!(probes[3].reachable_stars, vec![0]);
}

#[test]
fn select_all_needs_three_probes_besides_tt7() {
    let mut probes: Vec<ProbeState> = (0..3).map(|_| ProbeState::new()).collect();
    let reach: Vec<Vec<bool>> = in_range().into_iter().take(3).collect();
    match select_all_guide_stars(&mut probes, &reach, &vec![9, 8, 7, 2], &costs(Some(50)), 10) {
        Err(AtpError::Config(m)) => assert_eq!(m, "Not enough probes remaining for SH"),
        other => panic!("unexpected {:?}", other),
    }
    // The tip-tilt assignment stays.
    assert_eq!(probes[0].guide_star(), Some(3));
}

#[test]
fn select_all_reports_tt7_failure() {
    let mut probes: Vec<ProbeState> = (0..4).map(|_| ProbeState::new()).collect();
    let reach = vec![vec![false; 4]; 4];
    let r = select_all_guide_stars(&mut probes, &reach, &vec![1, 2, 3, 4], &costs(Some(50)), 10);
    assert_eq!(catalog_message(&r), "No reachable TT7 guide star found");
    assert!(probes.iter().all(|p| p.guide_star().is_none()));
}

#[test]
fn optimal_triplet_is_least_median() {
    assert_eq!(find_optimal_triplet(&vec![Some(7), None, Some(3), Some(3), Some(9)]).unwrap(), 2);
    assert_eq!(find_optimal_triplet(&vec![None, Some(4)]).unwrap(), 1);
    match find_optimal_triplet(&vec![]) {
        Err(AtpError::GuideStarSelection(m)) => assert_eq!(m, "No candidate triplets provided"),
        other => panic!("unexpected {:?}", other),
    }
    match find_optimal_triplet(&vec![None, None]) {
        Err(AtpError::GuideStarSelection(m)) => {
            assert_eq!(m, "All candidate triplets failed simulation")
        }
        other => panic!("unexpected {:?}", other),
    }
}
