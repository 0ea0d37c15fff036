use atp_rs::probe::ProbeState;

#[test]
fn test_guide_star_assignment() {
    let mut probe = ProbeState::new();

    assert!(probe.guide_star().is_none());

    probe.assign_guide_star(5);
    assert_eq!(probe.guide_star(), Some(5));

    probe.clear_guide_star();
    assert!(probe.guide_star().is_none());
}

#[test]
fn new_probe_has_nothing_in_reach() {
    let probe = ProbeState::new();
    assert!(probe.guide_star().is_none());
    assert_eq!(probe.num_reachable(), 0);
}

#[test]
fn reach_list_holds_stars_in_range_in_order() {
    let mut probe = ProbeState::new();
    probe.reach_for_the_stars(&vec![false, true, true, false, true]);
    assert_eq!(probe.reachable_stars, vec![1, 2, 4]);
    assert_eq!(probe.num_reachable(), 3);
}

#[test]
fn reach_list_is_rebuilt_and_keeps_assignment() {
    let mut probe = ProbeState::new();
    probe.assign_guide_star(7);
    probe.reach_for_the_stars(&vec![true, true, true]);
    probe.reach_for_the_stars(&vec![false, false, true, false]);
    assert_eq!(probe.reachable_stars, vec![2]);
    assert_eq!(probe.guide_star(), Some(7));
}

#[test]
fn reach_count_never_exceeds_star_count() {
    let mut probe = ProbeState::new();
    let mask = vec![true; 10];
    probe.reach_for_the_stars(&mask);
    assert_eq!(probe.num_reachable(), 10);
    assert!(probe.num_reachable() <= mask.len());
    probe.reach_for_the_stars(&vec![false; 10]);
    assert_eq!(probe.num_reachable(), 0);
}

#[test]
fn reach_list_depends_on_mask_only() {
    let mask = vec![true, false, true, true, false, false, true];
    let mut a = ProbeState::new();
    let mut b = ProbeState::new();
    b.reach_for_the_stars(&vec![true; 3]);
    a.reach_for_the_stars(&mask);
    b.reach_for_the_stars(&mask);
    assert_eq!(a.reachable_stars, b.reachable_stars);
}

#[test]
fn clear_keeps_reach_list() {
    let mut probe = ProbeState::new();
    probe.reach_for_the_stars(&vec![true, false, true]);
    probe.assign_guide_star(2);
    probe.clear_guide_star();
    assert_eq!(probe.reachable_stars, vec![0, 2]);
    assert!(probe.guide_star().is_none());
}
