use plaintext_server::machine::{
    bench_setup, bench_sixteen_states_flat, bench_sixteen_states_nested, nested_sixteen,
    run_until_done, transition_reports, Cap, NextState, SixteenState, TwoState,
};

#[test]
fn cap_is_done_at_once() {
    let mut c = Cap;
    assert!(c.next_state().0);
    assert!(c.next_state().0);
}

#[test]
fn two_state_takes_one_more_step_than_its_inner_machine() {
    let mut m = TwoState::new(Cap);
    assert!(!m.next_state().0);
    assert!(m.next_state().0);
    assert!(m.next_state().0);
}

#[test]
fn two_state_over_two_state() {
    let mut m = TwoState::new(TwoState::new(Cap));
    assert_eq!(run_until_done(&mut m), 3);
    assert!(m.next_state().0);
}

#[test]
fn sixteen_state_walks_in_order() {
    let mut s = SixteenState::S1;
    for _ in 0..15 {
        assert!(!s.next_state().0);
    }
    assert!(matches!(s, SixteenState::S16));
    assert!(s.next_state().0);
    assert!(matches!(s, SixteenState::S16));
}

#[test]
fn sixteen_state_from_the_middle() {
    let mut s = SixteenState::S15;
    assert_eq!(run_until_done(&mut s), 2);
}

#[test]
fn nested_chain_runs_seventeen_steps() {
    let mut m = nested_sixteen();
    assert_eq!(run_until_done(&mut m), 17);
    assert!(m.next_state().0);
}

#[test]
fn bench_bodies_count_their_transitions() {
    assert_eq!(bench_sixteen_states_nested(), 17);
    assert_eq!(bench_sixteen_states_flat(), 16);
    let (mut nested, mut flat) = bench_setup();
    assert!(matches!(flat, SixteenState::S1));
    assert_eq!(run_until_done(&mut nested), 17);
    assert_eq!(run_until_done(&mut flat), 16);
}

#[test]
fn reports_not_done_exactly_remaining_times() {
    let mut m = TwoState::new(TwoState::new(TwoState::new(Cap)));
    let r = transition_reports(&mut m, 6);
    assert_eq!(r, vec![false, false, false, true, true, true]);
    let mut s = SixteenState::S14;
    assert_eq!(transition_reports(&mut s, 4), vec![false, false, true, true]);
    let mut n = nested_sixteen();
    let r = transition_reports(&mut n, 20);
    assert_eq!(r.iter().filter(|d| !**d).count(), 16);
    assert!(r[16..].iter().all(|d| *d));
}
