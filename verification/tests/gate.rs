use kibitz::gate::{GateState, Lane};

#[test]
fn interactive_requests_share_the_engine() {
    let mut g = GateState::new();
    assert!(g.try_enter(Lane::Interactive));
    assert!(g.try_enter(Lane::Interactive));
    assert_eq!(g.interactive(), 2);
    assert!(!g.try_enter(Lane::Sweep), "a sweep waits for interactive work to finish");
    g.leave(Lane::Interactive);
    assert!(!g.try_enter(Lane::Sweep));
    g.leave(Lane::Interactive);
    assert!(g.try_enter(Lane::Sweep));
    assert!(g.sweeping());
}

#[test]
fn a_sweep_takes_the_engine_alone() {
    let mut g = GateState::new();
    assert!(g.try_enter(Lane::Sweep));
    assert!(!g.try_enter(Lane::Interactive), "interactive work waits out one sweep position");
    assert!(!g.try_enter(Lane::Sweep), "two sweeps take turns");
    g.leave(Lane::Sweep);
    assert!(g.try_enter(Lane::Interactive));
    assert!(!g.sweeping());
}

#[test]
fn leaving_an_empty_lane_is_harmless() {
    let mut g = GateState::new();
    g.leave(Lane::Interactive);
    assert_eq!(g.interactive(), 0);
    g.leave(Lane::Sweep);
    assert!(g.try_enter(Lane::Sweep));
}
