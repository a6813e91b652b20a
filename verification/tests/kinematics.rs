//! End-to-end checks of the inverse and forward kinematics.

use scara::{ConfigurationError, KinematicsError, Scara, ScaraState, Vec2};

fn arm(elbow_up: bool, squared_formula: bool) -> Scara {
    Scara::new(50_000, 50_000, Vec2 { x: 0, y: 0 }, elbow_up, squared_formula).unwrap()
}

#[test]
fn reachable_inside_strictly() {
    let g = arm(false, true);
    let sol = g.solve(Vec2 { x: 70_000, y: 0 }).unwrap();
    assert!(sol.reachable);
    assert!(sol.clamp.is_none());
    let mut state = ScaraState { theta1: 500_000, theta2: 300_000 };
    assert!(g.ik(Vec2 { x: 70_000, y: 0 }, &mut state));
}

#[test]
fn boundary_is_unreachable() {
    // distance == l1 + l2 exactly: the strict test classifies it out of reach
    let g = arm(false, true);
    assert!(!g.reachable(Vec2 { x: 100_000, y: 0 }));
    assert!(!g.reachable(Vec2 { x: 0, y: 100_000 }));
    assert!(!g.reachable(Vec2 { x: -100_000, y: 0 }));
    let mut state = ScaraState { theta1: 0, theta2: 0 };
    assert!(!g.ik(Vec2 { x: 100_000, y: 0 }, &mut state));
    assert!(g.reachable(Vec2 { x: 99_999, y: 0 }));
}

#[test]
fn unreachable_clamp_report() {
    // target at 150 units with reach 100: clamped to ~(99.9, -0.1)
    let g = arm(false, true);
    let sol = g.solve(Vec2 { x: 150_000, y: 0 }).unwrap();
    assert!(!sol.reachable);
    let c = sol.clamp.unwrap();
    assert_eq!(c.x, 99_900);
    assert_eq!(c.y, -100);
    assert_eq!(c.dist, 99_900);
}

#[test]
fn round_trip_axis_target() {
    let g = arm(false, true);
    let target = Vec2 { x: 70_000, y: 0 };
    let sol = g.solve(target).unwrap();
    assert!(sol.reachable);
    let pose = g.fk(&ScaraState { theta1: sol.theta1, theta2: sol.theta2 });
    assert!((pose.end_effector.x - target.x).abs() <= 50);
    assert!((pose.end_effector.y - target.y).abs() <= 50);
}

#[test]
fn round_trip_general_target() {
    let g = Scara::new(60_000, 40_000, Vec2 { x: 5_000, y: -3_000 }, false, true).unwrap();
    let target = Vec2 { x: 35_000, y: 17_000 };
    let sol = g.solve(target).unwrap();
    assert!(sol.reachable);
    let pose = g.fk(&ScaraState { theta1: sol.theta1, theta2: sol.theta2 });
    assert!((pose.end_effector.x - target.x).abs() <= 50);
    assert!((pose.end_effector.y - target.y).abs() <= 50);
}

#[test]
fn elbow_flag_flips_theta2() {
    let down = arm(false, true);
    let up = arm(true, true);
    let target = Vec2 { x: 70_000, y: 30_000 };
    let a = down.solve(target).unwrap();
    let b = up.solve(target).unwrap();
    assert_eq!(b.theta2, -a.theta2);
    assert_eq!(a.reachable, b.reachable);
    // both branches still place the end effector on the target
    let pa = down.fk(&ScaraState { theta1: a.theta1, theta2: a.theta2 });
    let pb = up.fk(&ScaraState { theta1: b.theta1, theta2: b.theta2 });
    assert!((pa.end_effector.x - target.x).abs() <= 50);
    assert!((pa.end_effector.y - target.y).abs() <= 50);
    assert!((pb.end_effector.x - target.x).abs() <= 50);
    assert!((pb.end_effector.y - target.y).abs() <= 50);
}

#[test]
fn solve_is_deterministic() {
    let g = arm(true, true);
    let target = Vec2 { x: 12_345, y: -67_890 };
    assert_eq!(g.solve(target), g.solve(target));
}

#[test]
fn fk_is_pure() {
    let g = arm(false, true);
    let state = ScaraState { theta1: 500_000, theta2: 300_000 };
    let g_before = g;
    let state_before = state;
    let p1 = g.fk(&state);
    let p2 = g.fk(&state);
    assert_eq!(p1, p2);
    assert_eq!(g, g_before);
    assert_eq!(state, state_before);
}

#[test]
fn faithful_formula_domain_error() {
    // tiny links: the unsquared cosine leaves [-1, 1] and the solve
    // reports it instead of corrupting the state
    let g = Scara::new(100, 100, Vec2 { x: 0, y: 0 }, false, false).unwrap();
    let r = g.solve(Vec2 { x: 50, y: 0 });
    assert_eq!(r, Err(KinematicsError::InvalidAngle));
    // the squared form accepts the same pose
    let g2 = Scara::new(100, 100, Vec2 { x: 0, y: 0 }, false, true).unwrap();
    assert!(g2.solve(Vec2 { x: 50, y: 0 }).is_ok());
}

#[test]
fn faithful_and_corrected_disagree() {
    // the unsquared legacy cosine yields different angles, so a round
    // trip only closes under the squared form
    let target = Vec2 { x: 70_000, y: 0 };
    let corrected = arm(false, true).solve(target).unwrap();
    let faithful = arm(false, false).solve(target).unwrap();
    assert_ne!(corrected.theta2, faithful.theta2);
    assert!(corrected.reachable && faithful.reachable);
}

#[test]
fn faithful_unreachable_still_solves() {
    let g = arm(false, false);
    let sol = g.solve(Vec2 { x: 150_000, y: 0 }).unwrap();
    assert!(!sol.reachable);
    let c = sol.clamp.unwrap();
    assert_eq!((c.x, c.y, c.dist), (99_900, -100, 99_900));
}

#[test]
fn clamp_nudge_can_leave_domain() {
    // the fixed offset is subtracted from both coordinates, so for a
    // target out of reach in the negative quadrant it pushes the
    // clamped point outside the disc and the elbow cosine passes 1
    let g = arm(false, true);
    let r = g.solve(Vec2 { x: -150_000, y: 0 });
    assert_eq!(r, Err(KinematicsError::InvalidAngle));
}

#[test]
fn ik_updates_state_on_success() {
    let g = arm(false, true);
    let target = Vec2 { x: 70_000, y: 0 };
    let sol = g.solve(target).unwrap();
    let mut state = ScaraState { theta1: 1, theta2: 2 };
    let reachable = g.ik(target, &mut state);
    assert!(reachable);
    assert_eq!(state.theta1, sol.theta1);
    assert_eq!(state.theta2, sol.theta2);
}

#[test]
fn ik_leaves_state_on_domain_error() {
    let g = arm(false, true);
    let mut state = ScaraState { theta1: 11, theta2: 22 };
    let reachable = g.ik(Vec2 { x: -150_000, y: 0 }, &mut state);
    assert!(!reachable);
    assert_eq!(state, ScaraState { theta1: 11, theta2: 22 });
}

#[test]
fn constructor_validates_geometry() {
    let base = Vec2 { x: 0, y: 0 };
    assert_eq!(
        Scara::new(0, 50_000, base, false, true),
        Err(ConfigurationError::NonPositiveLink)
    );
    assert_eq!(
        Scara::new(50_000, -3, base, false, true),
        Err(ConfigurationError::NonPositiveLink)
    );
    assert_eq!(
        Scara::new(1_000_000_001, 50_000, base, false, true),
        Err(ConfigurationError::LinkTooLong)
    );
    assert_eq!(
        Scara::new(50_000, 50_000, Vec2 { x: 1_000_000_001, y: 0 }, false, true),
        Err(ConfigurationError::BaseOutOfRange)
    );
    let g = Scara::new(50_000, 60_000, Vec2 { x: 7, y: -8 }, true, false).unwrap();
    assert_eq!(g.l1, 50_000);
    assert_eq!(g.l2, 60_000);
    assert_eq!(g.base, Vec2 { x: 7, y: -8 });
    assert!(g.elbow_up);
    assert!(!g.squared_formula);
}

#[test]
fn first_quadrant_clamp_stays_solvable() {
    // with equal links, every out-of-reach target in the first
    // quadrant is clamped to a point the solver accepts
    let g = arm(false, true);
    for &(x, y) in &[(120_000, 90_000), (100_000, 1_000), (0, 200_000), (100_000, 100_000)] {
        let sol = g.solve(Vec2 { x, y }).unwrap();
        assert!(!sol.reachable);
        assert!(sol.clamp.is_some());
    }
}
