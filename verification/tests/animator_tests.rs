use fract::animator::{Anim, Animator, ClampAction, Dims, Step};
use fract::error::FractError;

/// One tick of a scalar, with the arithmetic done here on `f64`.
fn tick(a: &mut Animator<f64, f64>) {
    let value = a.value();
    let step = match *a.anim() {
        Anim::Velocity { velocity, friction, epsilon } => {
            let decayed = velocity * friction;
            Step::Velocity {
                value: value + velocity,
                velocity: decayed,
                below_epsilon: match epsilon {
                    Some(eps) => decayed.abs() < eps,
                    None => false,
                },
            }
        }
        Anim::VelocityWithRotation { velocity, friction, .. } => {
            Step::VelocityWithRotation { value: value + velocity, velocity: velocity * friction }
        }
        Anim::ScaleVelocity { scale_velocity, friction, epsilon } => {
            let decayed = scale_velocity * friction;
            Step::ScaleVelocity {
                value: value + value * scale_velocity,
                scale_velocity: decayed,
                below_epsilon: match epsilon {
                    Some(eps) => decayed.abs() < eps,
                    None => false,
                },
            }
        }
        Anim::Target { target, coefficient, epsilon } => {
            let next = value + (target - value) * coefficient;
            let eps = epsilon.unwrap_or(0.0);
            Step::Target {
                value: next,
                at_or_above_low: next >= target - eps,
                at_or_below_high: next <= target + eps,
                within_distance: (next - target).abs() <= eps,
            }
        }
        Anim::Idle => Step::Idle,
    };
    assert_eq!(a.update(step), Ok(()));
}

fn scalar(value: f64, anim: Anim<f64, f64>) -> Animator<f64, f64> {
    let above = match anim {
        Anim::Target { target, .. } => target > value,
        _ => false,
    };
    Animator::new(Dims::Scalar, value, anim, above)
}

#[test]
fn velocity_adds_up_to_the_geometric_sum() {
    let (v0, f) = (1.0f64, 0.5f64);
    let mut a = scalar(0.0, Anim::Velocity { velocity: v0, friction: f, epsilon: None });
    for n in 1..=20 {
        tick(&mut a);
        let expected = v0 * (1.0 - f.powi(n)) / (1.0 - f);
        assert!((a.value() - expected).abs() < 1e-12);
    }
    assert!(matches!(*a.anim(), Anim::Velocity { .. }));
}

#[test]
fn velocity_ends_when_decayed_velocity_is_below_epsilon() {
    let mut a = scalar(0.0, Anim::Velocity { velocity: 1.0, friction: 0.5, epsilon: Some(0.3) });
    tick(&mut a);
    assert_eq!(a.value(), 1.0);
    assert!(matches!(*a.anim(), Anim::Velocity { velocity, .. } if velocity == 0.5));
    tick(&mut a);
    assert_eq!(a.value(), 1.5);
    assert!(matches!(*a.anim(), Anim::Idle));
    tick(&mut a);
    assert_eq!(a.value(), 1.5);
}

#[test]
fn scale_velocity_grows_the_value_by_its_share() {
    let mut a = scalar(4.0, Anim::ScaleVelocity { scale_velocity: 0.5, friction: 0.5, epsilon: Some(0.2) });
    tick(&mut a);
    assert_eq!(a.value(), 6.0);
    assert!(matches!(*a.anim(), Anim::ScaleVelocity { scale_velocity, .. } if scale_velocity == 0.25));
    tick(&mut a);
    assert_eq!(a.value(), 7.5);
    assert!(matches!(*a.anim(), Anim::Idle));
}

#[test]
fn target_closes_in_monotonically_by_its_coefficient() {
    let (start, target, c) = (2.0f64, 10.0f64, 0.25f64);
    let mut a = scalar(start, Anim::Target { target, coefficient: c, epsilon: None });
    let mut last = start;
    for n in 1..=40 {
        tick(&mut a);
        assert!(a.value() >= last);
        assert!(a.value() <= target);
        let expected = (start - target).abs() * (1.0 - c).powi(n);
        assert!(((a.value() - target).abs() - expected).abs() < 1e-9);
        last = a.value();
    }
    assert!(matches!(*a.anim(), Anim::Target { .. }));
}

#[test]
fn target_snaps_within_epsilon_and_stays_idle() {
    let mut a = scalar(0.0, Anim::Target { target: 8.0, coefficient: 0.5, epsilon: Some(1.5) });
    tick(&mut a);
    assert_eq!(a.value(), 4.0);
    assert!(matches!(*a.anim(), Anim::Target { .. }));
    tick(&mut a);
    assert_eq!(a.value(), 6.0);
    tick(&mut a);
    assert_eq!(a.value(), 8.0);
    assert!(matches!(*a.anim(), Anim::Idle));
    for _ in 0..3 {
        tick(&mut a);
        assert_eq!(a.value(), 8.0);
        assert!(matches!(*a.anim(), Anim::Idle));
    }
}

#[test]
fn target_from_above_snaps_at_target_plus_epsilon() {
    let mut a = scalar(8.0, Anim::Target { target: 0.0, coefficient: 0.5, epsilon: Some(1.5) });
    tick(&mut a);
    assert_eq!(a.value(), 4.0);
    tick(&mut a);
    assert_eq!(a.value(), 2.0);
    assert!(matches!(*a.anim(), Anim::Target { .. }));
    tick(&mut a);
    assert_eq!(a.value(), 0.0);
    assert!(matches!(*a.anim(), Anim::Idle));
}

#[test]
fn side_is_kept_when_target_moves_in_flight() {
    let mut a = scalar(0.0, Anim::Target { target: 8.0, coefficient: 0.5, epsilon: Some(1.0) });
    assert_eq!(a.set_target(-8.0), Ok(()));
    let step = Step::Target {
        value: -4.0,
        at_or_above_low: true,
        at_or_below_high: false,
        within_distance: false,
    };
    assert_eq!(a.update(step), Ok(()));
    assert_eq!(a.value(), -8.0);
    assert!(matches!(*a.anim(), Anim::Idle));
}

#[test]
fn other_motions_leave_the_side_alone() {
    let mut a = scalar(0.0, Anim::Target { target: 8.0, coefficient: 0.5, epsilon: Some(1.0) });
    a.set_anim(Anim::Velocity { velocity: 1.0, friction: 0.5, epsilon: None }, false);
    assert_eq!(a.set_velocity(2.0), Ok(()));
    a.set_anim(Anim::Idle, false);
    assert_eq!(a.set_target(3.0), Err(FractError::WrongVariant));
    let mut b: Animator<f64, f64> = Animator::new(
        Dims::Vector,
        0.0,
        Anim::Target { target: 8.0, coefficient: 0.5, epsilon: Some(1.0) },
        true,
    );
    let step = Step::Target {
        value: 4.0,
        at_or_above_low: true,
        at_or_below_high: true,
        within_distance: false,
    };
    assert_eq!(b.update(step), Ok(()));
    assert_eq!(b.value(), 4.0);
    assert!(matches!(*b.anim(), Anim::Target { .. }));
    let step = Step::Target {
        value: 7.5,
        at_or_above_low: false,
        at_or_below_high: false,
        within_distance: true,
    };
    assert_eq!(b.update(step), Ok(()));
    assert_eq!(b.value(), 8.0);
    assert!(matches!(*b.anim(), Anim::Idle));
}

#[test]
fn target_without_epsilon_never_ends() {
    let mut a = scalar(0.0, Anim::Target { target: 1.0, coefficient: 0.5, epsilon: None });
    let step = Step::Target {
        value: 1.0,
        at_or_above_low: true,
        at_or_below_high: true,
        within_distance: true,
    };
    assert_eq!(a.update(step), Ok(()));
    assert_eq!(a.value(), 1.0);
    assert!(matches!(*a.anim(), Anim::Target { .. }));
}

#[test]
fn setters_refuse_the_wrong_motion() {
    let mut a = scalar(1.0, Anim::Idle);
    assert_eq!(a.set_target(2.0), Err(FractError::WrongVariant));
    assert_eq!(a.set_velocity(2.0), Err(FractError::WrongVariant));
    assert_eq!(a.set_vwr_velocity(2.0), Err(FractError::WrongVariant));
    assert_eq!(a.set_vwr_rotation(2.0), Err(FractError::WrongVariant));
    assert_eq!(a.set_scale_velocity(2.0), Err(FractError::WrongVariant));
    assert_eq!(a.value(), 1.0);
    assert!(matches!(*a.anim(), Anim::Idle));
    a.set_anim(Anim::Velocity { velocity: 1.0, friction: 0.5, epsilon: None }, false);
    assert_eq!(a.set_scale_velocity(2.0), Err(FractError::WrongVariant));
    assert_eq!(a.set_velocity(3.0), Ok(()));
    assert!(matches!(*a.anim(), Anim::Velocity { velocity, friction, epsilon: None } if velocity == 3.0 && friction == 0.5));
    a.set_anim(Anim::ScaleVelocity { scale_velocity: 0.1, friction: 0.9, epsilon: Some(0.01) }, false);
    assert_eq!(a.set_scale_velocity(-0.2), Ok(()));
    assert!(matches!(*a.anim(), Anim::ScaleVelocity { scale_velocity, friction, epsilon: Some(e) } if scale_velocity == -0.2 && friction == 0.9 && e == 0.01));
    a.set_anim(Anim::VelocityWithRotation { velocity: 1.0, rotation: 0.0, friction: 0.9 }, false);
    assert_eq!(a.set_vwr_velocity(5.0), Ok(()));
    assert_eq!(a.set_vwr_rotation(0.5), Ok(()));
    assert!(matches!(*a.anim(), Anim::VelocityWithRotation { velocity, rotation, friction } if velocity == 5.0 && rotation == 0.5 && friction == 0.9));
    assert_eq!(a.set_target(0.0), Err(FractError::WrongVariant));
}

#[test]
fn update_refuses_a_step_of_another_kind() {
    let mut a = scalar(1.0, Anim::Velocity { velocity: 1.0, friction: 0.5, epsilon: None });
    assert_eq!(a.update(Step::Idle), Err(FractError::WrongVariant));
    let step = Step::ScaleVelocity { value: 9.0, scale_velocity: 1.0, below_epsilon: true };
    assert_eq!(a.update(step), Err(FractError::WrongVariant));
    assert_eq!(a.value(), 1.0);
    assert!(matches!(*a.anim(), Anim::Velocity { velocity, .. } if velocity == 1.0));
    let mut idle = scalar(1.0, Anim::Idle);
    let step = Step::Velocity { value: 9.0, velocity: 1.0, below_epsilon: true };
    assert_eq!(idle.update(step), Err(FractError::WrongVariant));
    assert_eq!(idle.value(), 1.0);
}

#[test]
fn motions_apply_by_dimension() {
    let mut s = scalar(1.0, Anim::VelocityWithRotation { velocity: 1.0, rotation: 0.0, friction: 0.5 });
    assert_eq!(s.update(Step::VelocityWithRotation { value: 2.0, velocity: 0.5 }), Ok(()));
    assert_eq!(s.value(), 1.0);
    assert!(matches!(*s.anim(), Anim::VelocityWithRotation { velocity, .. } if velocity == 1.0));
    let mut v: Animator<(f64, f64), f64> = Animator::new(
        Dims::Vector,
        (0.0, 0.0),
        Anim::VelocityWithRotation { velocity: (1.0, 0.0), rotation: 0.0, friction: 0.5 },
        false,
    );
    assert_eq!(v.dims(), Dims::Vector);
    assert_eq!(v.update(Step::VelocityWithRotation { value: (1.0, 0.0), velocity: (0.5, 0.0) }), Ok(()));
    assert_eq!(v.value(), (1.0, 0.0));
    assert!(matches!(*v.anim(), Anim::VelocityWithRotation { velocity, .. } if velocity == (0.5, 0.0)));
    v.set_anim(Anim::ScaleVelocity { scale_velocity: 0.5, friction: 0.5, epsilon: Some(1.0) }, false);
    let step = Step::ScaleVelocity { value: (9.0, 9.0), scale_velocity: 0.25, below_epsilon: true };
    assert_eq!(v.update(step), Ok(()));
    assert_eq!(v.value(), (1.0, 0.0));
    assert!(matches!(*v.anim(), Anim::ScaleVelocity { scale_velocity, .. } if scale_velocity == 0.5));
}

#[test]
fn clamp_bounces_velocities_and_cancels_targets() {
    let mut a = scalar(5.0, Anim::ScaleVelocity { scale_velocity: 0.5, friction: 0.5, epsilon: None });
    assert_eq!(a.clamp(4.0), ClampAction::Bounce);
    assert_eq!(a.value(), 4.0);
    assert!(matches!(*a.anim(), Anim::ScaleVelocity { .. }));
    a.set_anim(Anim::Velocity { velocity: 0.5, friction: 0.5, epsilon: None }, false);
    assert_eq!(a.clamp(3.0), ClampAction::Bounce);
    a.set_anim(Anim::VelocityWithRotation { velocity: 0.5, rotation: 0.0, friction: 0.5 }, false);
    assert_eq!(a.clamp(3.0), ClampAction::Bounce);
    a.set_anim(Anim::Target { target: 9.0, coefficient: 0.5, epsilon: None }, true);
    assert_eq!(a.clamp(2.0), ClampAction::Cancel);
    assert_eq!(a.value(), 2.0);
    assert!(matches!(*a.anim(), Anim::Idle));
    assert_eq!(a.clamp(1.0), ClampAction::Keep);
    assert_eq!(a.value(), 1.0);
    a.set_value(6.5);
    assert_eq!(a.value(), 6.5);
    assert!(matches!(*a.anim(), Anim::Idle));
}
