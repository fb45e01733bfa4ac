use times_table::decimal::FixedDecimal;
use times_table::sim::edge_target_index;
use times_table::sim::Direction;
use times_table::sim::InputSignals;
use times_table::sim::Simulation;
use times_table::sim::SimulationState;

fn held(
    grow_points: bool,
    shrink_points: bool,
    advance_forward: bool,
    advance_backward: bool,
) -> InputSignals {
    let mut input = InputSignals::none();
    input.grow_points = grow_points;
    input.shrink_points = shrink_points;
    input.advance_forward = advance_forward;
    input.advance_backward = advance_backward;
    input
}

#[test]
fn startup_defaults() {
    let sim = Simulation::new();
    assert_eq!(sim.state.factor, FixedDecimal::new(2, 0));
    assert_eq!(sim.state.factor_increment, FixedDecimal::new(1, 2));
    assert_eq!(sim.state.num_points, 200);
    assert_eq!(sim.state.direction, Direction::Increasing);
    assert!(!sim.state.paused);
    assert_eq!(sim.points.len(), 200);
}

#[test]
fn a_hundred_unpaused_frames_take_the_factor_to_three() {
    let mut sim = Simulation::new();
    let input = InputSignals::none();
    for _ in 0..100 {
        assert!(sim.can_step(&input));
        let geometry_changed = sim.step_frame(&input);
        assert!(!geometry_changed);
    }
    assert_eq!(sim.state.factor, FixedDecimal::new(300, 2));
    assert_eq!(sim.state.num_points, 200);
}

#[test]
fn factor_is_invariant_while_paused_and_quiet() {
    let mut sim = Simulation::new();
    let mut toggle = InputSignals::none();
    toggle.toggle_pause = true;
    assert!(sim.can_step(&toggle));
    sim.step_frame(&toggle);
    assert!(sim.state.paused);
    // The toggling frame already pauses the decision, so the factor never moved.
    assert_eq!(sim.state.factor, FixedDecimal::new(2, 0));
    let quiet = InputSignals::none();
    for _ in 0..50 {
        assert!(sim.can_step(&quiet));
        sim.step_frame(&quiet);
        assert_eq!(sim.state.factor, FixedDecimal::new(2, 0));
    }
}

#[test]
fn increment_signals_do_not_move_the_factor_while_paused() {
    let mut sim = Simulation::new();
    let mut toggle = InputSignals::none();
    toggle.toggle_pause = true;
    sim.step_frame(&toggle);
    let mut scale = InputSignals::none();
    scale.increase_increment = true;
    assert!(sim.can_step(&scale));
    sim.step_frame(&scale);
    assert_eq!(sim.state.factor, FixedDecimal::new(2, 0));
    assert_eq!(sim.state.factor_increment, FixedDecimal::new(1, 1));
}

#[test]
fn grow_then_shrink_restores_count_and_ring() {
    let mut sim = Simulation::new();
    let original_points = sim.points.clone();
    for _ in 0..3 {
        let changed = sim.step_frame(&held(true, false, false, false));
        assert!(changed);
    }
    assert_eq!(sim.state.num_points, 215);
    for _ in 0..3 {
        let changed = sim.step_frame(&held(false, true, false, false));
        assert!(changed);
    }
    assert_eq!(sim.state.num_points, 200);
    assert_eq!(sim.points, original_points);
}

#[test]
fn shrink_at_the_floor_is_a_no_op() {
    let mut sim = Simulation::new();
    let shrink = held(false, true, false, false);
    for _ in 0..39 {
        sim.step_frame(&shrink);
    }
    assert_eq!(sim.state.num_points, 5);
    let changed = sim.step_frame(&shrink);
    assert!(!changed);
    assert_eq!(sim.state.num_points, 5);
    assert_eq!(sim.points.len(), 5);
}

#[test]
fn grow_forces_a_step_even_while_paused() {
    let mut sim = Simulation::new();
    let mut toggle = InputSignals::none();
    toggle.toggle_pause = true;
    sim.step_frame(&toggle);
    sim.step_frame(&held(true, false, false, false));
    assert_eq!(sim.state.num_points, 205);
    assert_eq!(sim.state.factor, FixedDecimal::new(201, 2));
}

#[test]
fn navigation_scrubs_while_paused_and_forward_wins() {
    let mut sim = Simulation::new();
    let mut toggle = InputSignals::none();
    toggle.toggle_pause = true;
    sim.step_frame(&toggle);
    sim.step_frame(&held(false, false, false, true));
    assert_eq!(sim.state.direction, Direction::Decreasing);
    assert_eq!(sim.state.factor, FixedDecimal::new(199, 2));
    sim.step_frame(&held(false, false, true, true));
    assert_eq!(sim.state.direction, Direction::Increasing);
    assert_eq!(sim.state.factor, FixedDecimal::new(200, 2));
}

#[test]
fn increment_scaling_round_trips_within_one_frame() {
    let mut sim = Simulation::new();
    let mut both = InputSignals::none();
    both.decrease_increment = true;
    both.increase_increment = true;
    assert!(sim.can_step(&both));
    sim.step_frame(&both);
    assert_eq!(sim.state.factor_increment, FixedDecimal::new(1, 2));
}

#[test]
fn increment_never_reaches_zero() {
    let mut sim = Simulation::new();
    let mut toggle = InputSignals::none();
    toggle.toggle_pause = true;
    sim.step_frame(&toggle);
    let mut lower = InputSignals::none();
    lower.decrease_increment = true;
    for _ in 0..30 {
        assert!(sim.can_step(&lower));
        sim.step_frame(&lower);
    }
    // 0.01 can only shrink to the eighteen-digit floor; it stays there.
    assert_eq!(sim.state.factor_increment, FixedDecimal::new(1, 18));
}

#[test]
fn can_step_refuses_an_increment_overflow() {
    let state = SimulationState {
        factor: FixedDecimal::new(2, 0),
        factor_increment: FixedDecimal::new(2_000_000_000_000_000_000, 0),
        num_points: 200,
        direction: Direction::Increasing,
        paused: true,
    };
    let mut scale = InputSignals::none();
    scale.increase_increment = true;
    assert!(!state.can_step(&scale));
    assert!(state.can_step(&InputSignals::none()));
}

#[test]
fn edge_target_handles_a_negative_factor() {
    // factor -0.5, point 3 of 10: round(-1.5) is -2, which must land at 8.
    let target = edge_target_index(FixedDecimal::new(-5, 1), 3, 10);
    assert!(target < 10);
    assert_eq!(target, 8);
}

#[test]
fn edge_target_wraps_around_the_ring() {
    let two = FixedDecimal::new(2, 0);
    assert_eq!(edge_target_index(two, 7, 10), 4);
    assert_eq!(edge_target_index(two, 3, 10), 6);
}

#[test]
fn edge_target_rounds_ties_away_from_zero() {
    let quarter = FixedDecimal::new(25, 2);
    assert_eq!(edge_target_index(quarter, 2, 10), 1);
    assert_eq!(edge_target_index(quarter, 6, 10), 2);
}

#[test]
fn edge_target_method_matches_the_startup_factor() {
    let sim = Simulation::new();
    assert_eq!(sim.edge_target(3), 6);
    assert_eq!(sim.edge_target(150), 100);
}

#[test]
fn edge_targets_cover_the_whole_ring() {
    let sim = Simulation::new();
    let targets = sim.edge_targets();
    assert_eq!(targets.len(), 200);
    for (n, &t) in targets.iter().enumerate() {
        assert!(t < 200);
        assert_eq!(t, (2 * n) % 200);
    }
}
