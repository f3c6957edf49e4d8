use vstd::prelude::*;
use crate::error::FractError;

verus! {

/// How a value moves from tick to tick. `T` is the kind of value that is
/// moved, `S` the scalar that its rates are given in.
#[derive(Clone, Copy, Debug)]
pub enum Anim<T, S> {
    /// `velocity` is added to the value; `friction` then scales it down. The
    /// motion ends once the scaled velocity is smaller than `epsilon`.
    Velocity { velocity: T, friction: S, epsilon: Option<S> },
    /// As `Velocity`, for a value of two dimensions: `velocity` is turned by
    /// `rotation` before it is added. The rotation is set from outside.
    VelocityWithRotation { velocity: T, rotation: S, friction: S },
    /// The value grows by `scale_velocity` times itself; `friction` then
    /// scales the rate down. The motion ends once the scaled rate is smaller
    /// than `epsilon`.
    ScaleVelocity { scale_velocity: S, friction: S, epsilon: Option<S> },
    /// The value closes the share `coefficient` of its distance to `target`.
    /// Within `epsilon` of the target it is set on the target, and the motion
    /// ends.
    Target { target: T, coefficient: S, epsilon: Option<S> },
    /// The value stays.
    Idle,
}

/// Whether an animated value has one dimension or two. The two differ in the
/// motions that apply to them and in how a `Target` motion ends.
#[derive(Clone, Copy, Debug, PartialEq, Eq, Structural)]
pub enum Dims {
    Scalar,
    Vector,
}

/// What a tick's arithmetic came to. The caller works it out on its own
/// numbers, from the value and the motion as they stand before the tick, and
/// hands it to [`Animator::update`], which decides what becomes of it.
#[derive(Clone, Copy, Debug)]
pub enum Step<T, S> {
    /// For `Velocity`: the value with the velocity added, the velocity after
    /// friction, and whether that velocity is smaller than epsilon.
    Velocity { value: T, velocity: T, below_epsilon: bool },
    /// For `VelocityWithRotation`: the value with the turned velocity added,
    /// and the velocity after friction.
    VelocityWithRotation { value: T, velocity: T },
    /// For `ScaleVelocity`: the grown value, the rate after friction, and
    /// whether that rate is smaller than epsilon.
    ScaleVelocity { value: T, scale_velocity: S, below_epsilon: bool },
    /// For `Target`: the value after it closed in, and where it then stands
    /// against the target: at or above target minus epsilon, at or below
    /// target plus epsilon, and no further than epsilon from it.
    Target { value: T, at_or_above_low: bool, at_or_below_high: bool, within_distance: bool },
    /// For `Idle`: nothing was worked out.
    Idle,
}

/// What a bounds check asks of the caller after it pulled a value back.
#[derive(Clone, Copy, Debug, PartialEq, Eq, Structural)]
pub enum ClampAction {
    /// The motion runs on a velocity: turn it round and damp it.
    Bounce,
    /// The motion ran to a target and was ended on the spot.
    Cancel,
    /// There was no motion to deal with.
    Keep,
}

/// A value together with the motion that drives it.
pub struct Animator<T, S> {
    value: T,
    anim: Anim<T, S>,
    dims: Dims,
    target_is_gt: bool,
}

impl<T: Copy, S: Copy> Anim<T, S> {
    /// `step` is of the kind that this motion asks for.
    pub open spec fn fits(self, step: Step<T, S>) -> bool {
        match (self, step) {
            (Anim::Velocity { .. }, Step::Velocity { .. }) => true,
            (Anim::VelocityWithRotation { .. }, Step::VelocityWithRotation { .. }) => true,
            (Anim::ScaleVelocity { .. }, Step::ScaleVelocity { .. }) => true,
            (Anim::Target { .. }, Step::Target { .. }) => true,
            (Anim::Idle, Step::Idle) => true,
            _ => false,
        }
    }
}

/// The state of an [`Animator`], for contracts.
pub struct AnimatorState<T, S> {
    pub value: T,
    pub anim: Anim<T, S>,
    pub dims: Dims,
    /// Whether the target lay above the value when a `Target` motion was last
    /// set on a scalar. It tells from which side the value arrives.
    pub target_is_gt: bool,
}

impl<T: Copy, S: Copy> AnimatorState<T, S> {
    /// The state after `anim` was set, with `target_above` saying whether its
    /// target lies above the value. Only a `Target` motion on a scalar takes
    /// note of the side.
    pub open spec fn with_anim(self, anim: Anim<T, S>, target_above: bool) -> Self {
        AnimatorState {
            anim,
            target_is_gt: if anim is Target && self.dims == Dims::Scalar {
                target_above
            } else {
                self.target_is_gt
            },
            ..self
        }
    }

    /// The state with its motion replaced by `anim` and nothing else touched.
    pub open spec fn with_motion(self, anim: Anim<T, S>) -> Self {
        AnimatorState { anim, ..self }
    }

    /// What a bounds check that pulls the value back asks for: a bounce of a
    /// motion that runs on a velocity, the end of a motion to a target.
    pub open spec fn clamp_action(self) -> ClampAction {
        match self.anim {
            Anim::Velocity { .. } => ClampAction::Bounce,
            Anim::VelocityWithRotation { .. } => ClampAction::Bounce,
            Anim::ScaleVelocity { .. } => ClampAction::Bounce,
            Anim::Target { .. } => ClampAction::Cancel,
            Anim::Idle => ClampAction::Keep,
        }
    }

    /// The state after a bounds check pulled the value back to `value`: a
    /// motion to a target has ended, any other goes on.
    pub open spec fn clamped(self, value: T) -> Self {
        AnimatorState {
            value,
            anim: if self.anim is Target {
                Anim::Idle
            } else {
                self.anim
            },
            ..self
        }
    }

    /// Whether a `Target` motion with an epsilon has arrived, given where the
    /// value stands against the target. A scalar has arrived when it has
    /// come within epsilon from the side it started on, or passed the target;
    /// a vector when it is no further than epsilon away.
    pub open spec fn arrived(self, step: Step<T, S>) -> bool {
        match step {
            Step::Target { at_or_above_low, at_or_below_high, within_distance, .. } => match self.dims {
                Dims::Scalar => if self.target_is_gt {
                    at_or_above_low
                } else {
                    at_or_below_high
                },
                Dims::Vector => within_distance,
            },
            _ => false,
        }
    }

    /// The state after one tick whose arithmetic came to `step`, which must
    /// fit the motion.
    pub open spec fn after_update(self, step: Step<T, S>) -> Self {
        match (self.anim, step) {
            (
                Anim::Velocity { velocity: _, friction, epsilon },
                Step::Velocity { value, velocity, below_epsilon },
            ) => AnimatorState {
                value,
                anim: if epsilon is Some && below_epsilon {
                    Anim::Idle
                } else {
                    Anim::Velocity { velocity, friction, epsilon }
                },
                ..self
            },
            (
                Anim::VelocityWithRotation { velocity: _, rotation, friction },
                Step::VelocityWithRotation { value, velocity },
            ) => match self.dims {
                Dims::Scalar => self,
                Dims::Vector => AnimatorState {
                    value,
                    anim: Anim::VelocityWithRotation { velocity, rotation, friction },
                    ..self
                },
            },
            (
                Anim::ScaleVelocity { scale_velocity: _, friction, epsilon },
                Step::ScaleVelocity { value, scale_velocity, below_epsilon },
            ) => match self.dims {
                Dims::Scalar => AnimatorState {
                    value,
                    anim: if epsilon is Some && below_epsilon {
                        Anim::Idle
                    } else {
                        Anim::ScaleVelocity { scale_velocity, friction, epsilon }
                    },
                    ..self
                },
                Dims::Vector => self,
            },
            (Anim::Target { target, coefficient: _, epsilon }, Step::Target { value, .. }) => {
                if epsilon is Some && self.arrived(step) {
                    AnimatorState { value: target, anim: Anim::Idle, ..self }
                } else {
                    AnimatorState { value, ..self }
                }
            },
            _ => self,
        }
    }
}

impl<T: Copy, S: Copy> View for Animator<T, S> {
    type V = AnimatorState<T, S>;

    closed spec fn view(&self) -> AnimatorState<T, S> {
        AnimatorState {
            value: self.value,
            anim: self.anim,
            dims: self.dims,
            target_is_gt: self.target_is_gt,
        }
    }
}

impl<T: Copy, S: Copy> Animator<T, S> {
    /// A value of `dims` dimensions that starts at `value` and moves by
    /// `anim`. `target_above` says whether the target of `anim` lies above
    /// `value`: see [`Animator::set_anim`].
    pub fn new(dims: Dims, value: T, anim: Anim<T, S>, target_above: bool) -> (a: Self)
        ensures
            a@ == (AnimatorState::<T, S> {
                value,
                anim: Anim::Idle,
                dims,
                target_is_gt: false,
            }).with_anim(anim, target_above),
    {
        let mut a = Animator { value, anim: Anim::Idle, dims, target_is_gt: false };
        a.set_anim(anim, target_above);
        a
    }

    /// The value as it stands.
    pub fn value(&self) -> (value: T)
        ensures
            value == self@.value,
    {
        self.value
    }

    /// Puts the value where the caller wants it, as a bounds check does. The
    /// motion stays as it is.
    pub fn set_value(&mut self, value: T)
        ensures
            final(self)@ == (AnimatorState { value, ..old(self)@ }),
    {
        self.value = value;
    }

    /// Pulls the value back to `value`, the bound that it ran over. A motion
    /// to a target ends there and then; for a motion that runs on a velocity
    /// the caller is asked to bounce it.
    pub fn clamp(&mut self, value: T) -> (action: ClampAction)
        ensures
            action == old(self)@.clamp_action(),
            final(self)@ == old(self)@.clamped(value),
    {
        self.value = value;
        match self.anim {
            Anim::Velocity { .. } => ClampAction::Bounce,
            Anim::VelocityWithRotation { .. } => ClampAction::Bounce,
            Anim::ScaleVelocity { .. } => ClampAction::Bounce,
            Anim::Target { .. } => {
                self.anim = Anim::Idle;
                ClampAction::Cancel
            },
            Anim::Idle => ClampAction::Keep,
        }
    }

    /// The motion as it stands.
    pub fn anim(&self) -> (anim: &Anim<T, S>)
        ensures
            *anim == self@.anim,
    {
        &self.anim
    }

    pub fn dims(&self) -> (dims: Dims)
        ensures
            dims == self@.dims,
    {
        self.dims
    }

    /// Replaces the motion. For a `Target` motion on a scalar, `target_above`
    /// must say whether the target lies above the value as it stands: the
    /// side is kept until the next `Target` motion is set, and decides when
    /// the value has arrived. No other motion touches what was kept.
    pub fn set_anim(&mut self, anim: Anim<T, S>, target_above: bool)
        ensures
            final(self)@ == old(self)@.with_anim(anim, target_above),
    {
        match anim {
            Anim::Target { .. } => {
                match self.dims {
                    Dims::Scalar => {
                        self.target_is_gt = target_above;
                    },
                    Dims::Vector => {},
                }
            },
            _ => {},
        }
        self.anim = anim;
    }

    /// Sets the target of a `Target` motion in flight. The side that was
    /// kept when the motion was set stays as it is. With another motion
    /// active the call is refused.
    pub fn set_target(&mut self, targ: T) -> (r: Result<(), FractError>)
        ensures
            match old(self)@.anim {
                Anim::Target { target: _, coefficient, epsilon } => r is Ok && final(self)@ == old(self)@.with_motion(
                    Anim::Target { target: targ, coefficient, epsilon },
                ),
                _ => r == Err::<(), FractError>(FractError::WrongVariant) && final(self)@ == old(self)@,
            },
    {
        match self.anim {
            Anim::Target { target: _, coefficient, epsilon } => {
                self.anim = Anim::Target { target: targ, coefficient, epsilon };
                Ok(())
            },
            _ => Err(FractError::WrongVariant),
        }
    }

    /// Sets the velocity of a `Velocity` motion in flight. With another
    /// motion active the call is refused.
    pub fn set_velocity(&mut self, vel: T) -> (r: Result<(), FractError>)
        ensures
            match old(self)@.anim {
                Anim::Velocity { velocity: _, friction, epsilon } => r is Ok && final(self)@ == old(self)@.with_motion(
                    Anim::Velocity { velocity: vel, friction, epsilon },
                ),
                _ => r == Err::<(), FractError>(FractError::WrongVariant) && final(self)@ == old(self)@,
            },
    {
        match self.anim {
            Anim::Velocity { velocity: _, friction, epsilon } => {
                self.anim = Anim::Velocity { velocity: vel, friction, epsilon };
                Ok(())
            },
            _ => Err(FractError::WrongVariant),
        }
    }

    /// Sets the velocity of a `VelocityWithRotation` motion in flight. With
    /// another motion active the call is refused.
    pub fn set_vwr_velocity(&mut self, vel: T) -> (r: Result<(), FractError>)
        ensures
            match old(self)@.anim {
                Anim::VelocityWithRotation { velocity: _, rotation, friction } => r is Ok && final(self)@ == old(self)@.with_motion(
                    Anim::VelocityWithRotation { velocity: vel, rotation, friction },
                ),
                _ => r == Err::<(), FractError>(FractError::WrongVariant) && final(self)@ == old(self)@,
            },
    {
        match self.anim {
            Anim::VelocityWithRotation { velocity: _, rotation, friction } => {
                self.anim = Anim::VelocityWithRotation { velocity: vel, rotation, friction };
                Ok(())
            },
            _ => Err(FractError::WrongVariant),
        }
    }

    /// Sets the rotation of a `VelocityWithRotation` motion in flight. With
    /// another motion active the call is refused.
    pub fn set_vwr_rotation(&mut self, rot: S) -> (r: Result<(), FractError>)
        ensures
            match old(self)@.anim {
                Anim::VelocityWithRotation { velocity, rotation: _, friction } => r is Ok && final(self)@ == old(self)@.with_motion(
                    Anim::VelocityWithRotation { velocity, rotation: rot, friction },
                ),
                _ => r == Err::<(), FractError>(FractError::WrongVariant) && final(self)@ == old(self)@,
            },
    {
        match self.anim {
            Anim::VelocityWithRotation { velocity, rotation: _, friction } => {
                self.anim = Anim::VelocityWithRotation { velocity, rotation: rot, friction };
                Ok(())
            },
            _ => Err(FractError::WrongVariant),
        }
    }

    /// Sets the rate of a `ScaleVelocity` motion in flight. With another
    /// motion active the call is refused.
    pub fn set_scale_velocity(&mut self, vel: S) -> (r: Result<(), FractError>)
        ensures
            match old(self)@.anim {
                Anim::ScaleVelocity { scale_velocity: _, friction, epsilon } => r is Ok && final(self)@ == old(self)@.with_motion(
                    Anim::ScaleVelocity { scale_velocity: vel, friction, epsilon },
                ),
                _ => r == Err::<(), FractError>(FractError::WrongVariant) && final(self)@ == old(self)@,
            },
    {
        match self.anim {
            Anim::ScaleVelocity { scale_velocity: _, friction, epsilon } => {
                self.anim = Anim::ScaleVelocity { scale_velocity: vel, friction, epsilon };
                Ok(())
            },
            _ => Err(FractError::WrongVariant),
        }
    }

    /// Moves the value by one tick whose arithmetic came to `step`, and ends
    /// the motion where it has run its course. A step of another kind than
    /// the motion asks for is refused, and nothing changes.
    pub fn update(&mut self, step: Step<T, S>) -> (r: Result<(), FractError>)
        ensures
            old(self)@.anim.fits(step) ==> r is Ok && final(self)@ == old(self)@.after_update(step),
            !old(self)@.anim.fits(step) ==> r == Err::<(), FractError>(FractError::WrongVariant)
                && final(self)@ == old(self)@,
    {
        let mut should_set_anim_idle = false;
        match (self.anim, step) {
            (
                Anim::Velocity { velocity: _, friction, epsilon },
                Step::Velocity { value, velocity, below_epsilon },
            ) => {
                self.value = value;
                self.anim = Anim::Velocity { velocity, friction, epsilon };
                if epsilon.is_some() && below_epsilon {
                    should_set_anim_idle = true;
                }
            },
            (
                Anim::VelocityWithRotation { velocity: _, rotation, friction },
                Step::VelocityWithRotation { value, velocity },
            ) => {
                match self.dims {
                    Dims::Scalar => {},
                    Dims::Vector => {
                        self.value = value;
                        self.anim = Anim::VelocityWithRotation { velocity, rotation, friction };
                    },
                }
            },
            (
                Anim::ScaleVelocity { scale_velocity: _, friction, epsilon },
                Step::ScaleVelocity { value, scale_velocity, below_epsilon },
            ) => {
                match self.dims {
                    Dims::Scalar => {
                        self.value = value;
                        self.anim = Anim::ScaleVelocity { scale_velocity, friction, epsilon };
                        if epsilon.is_some() && below_epsilon {
                            should_set_anim_idle = true;
                        }
                    },
                    Dims::Vector => {},
                }
            },
            (
                Anim::Target { target, coefficient: _, epsilon },
                Step::Target { value, at_or_above_low, at_or_below_high, within_distance },
            ) => {
                self.value = value;
                if epsilon.is_some() {
                    let arrived = match self.dims {
                        Dims::Scalar => if self.target_is_gt {
                            at_or_above_low
                        } else {
                            at_or_below_high
                        },
                        Dims::Vector => within_distance,
                    };
                    if arrived {
                        self.value = target;
                        should_set_anim_idle = true;
                    }
                }
            },
            (Anim::Idle, Step::Idle) => {},
            _ => {
                return Err(FractError::WrongVariant);
            },
        }
        if should_set_anim_idle {
            self.anim = Anim::Idle;
        }
        Ok(())
    }
}

/// A scalar that was sent to a target above it, with an epsilon, is set on
/// the target by the first tick that brings it to target minus epsilon or
/// beyond, and its motion ends with that tick.
pub proof fn lemma_target_snaps_from_below<T: Copy, S: Copy>(
    a: AnimatorState<T, S>,
    step: Step<T, S>,
)
    requires
        a.dims == Dims::Scalar,
        a.target_is_gt,
        a.anim matches Anim::Target { epsilon, .. } && epsilon is Some,
        step matches Step::Target { at_or_above_low, .. } && at_or_above_low,
    ensures
        a.after_update(step).value == a.anim->target,
        a.after_update(step).anim is Idle,
{
}

/// A scalar that was sent to a target not above it, with an epsilon, is set
/// on the target by the first tick that brings it to target plus epsilon or
/// beyond, and its motion ends with that tick.
pub proof fn lemma_target_snaps_from_above<T: Copy, S: Copy>(
    a: AnimatorState<T, S>,
    step: Step<T, S>,
)
    requires
        a.dims == Dims::Scalar,
        !a.target_is_gt,
        a.anim matches Anim::Target { epsilon, .. } && epsilon is Some,
        step matches Step::Target { at_or_below_high, .. } && at_or_below_high,
    ensures
        a.after_update(step).value == a.anim->target,
        a.after_update(step).anim is Idle,
{
}

/// A motion that has ended stays ended: whatever step a value without a
/// motion is handed, the value and the motion stay as they are.
pub proof fn lemma_idle_is_terminal<T: Copy, S: Copy>(a: AnimatorState<T, S>, step: Step<T, S>)
    requires
        a.anim is Idle,
    ensures
        a.after_update(step) == a,
{
}

/// Setting the parameters of a motion in flight, or any motion but `Target`,
/// leaves the side that a `Target` motion arrives from as it was kept.
pub proof fn lemma_side_is_kept<T: Copy, S: Copy>(
    a: AnimatorState<T, S>,
    anim: Anim<T, S>,
    target_above: bool,
    step: Step<T, S>,
)
    ensures
        !(anim is Target) ==> a.with_anim(anim, target_above).target_is_gt == a.target_is_gt,
        a.dims == Dims::Vector ==> a.with_anim(anim, target_above).target_is_gt == a.target_is_gt,
        a.after_update(step).target_is_gt == a.target_is_gt,
{
}

} // verus!
