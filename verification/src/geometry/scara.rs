//! The two-link planar arm: geometry, joint state, forward kinematics
//! and inverse kinematics.
//!
//! Lengths and coordinates are in milli-units, angles in micro-radians.
//! The inverse solver follows the law-of-cosines construction; the
//! `squared_formula` flag selects between the geometrically correct
//! squared form of the elbow cosine and the unsquared legacy form, and
//! `elbow_up` statically selects the elbow branch.

use vstd::prelude::*;
use crate::math::{spec_muldiv, spec_isqrt, scale_div, muldiv_wide, isqrt};
use crate::math::{lemma_mul_le, lemma_scale_le, lemma_sq_le, lemma_isqrt_props};
use crate::trig::{spec_sin, spec_cos, spec_atan2, spec_acos, sin_fp, cos_fp, atan2_fp, acos_fp, ANG_ONE};

verus! {

/// Largest magnitude a coordinate may carry, in milli-units.
pub const COORD_MAX: i64 = 1_000_000_000;

/// Largest link length, in milli-units.
pub const LEN_MAX: i64 = 1_000_000_000;

/// The offset subtracted from each clamped coordinate when a target is
/// out of reach, in milli-units (a tenth of a unit). A heuristic nudge
/// toward the inside of the reach circle, not a geometric projection.
pub const CLAMP_EPS: i64 = 100;

/// A planar point or vector, in milli-units.
#[derive(Clone, Copy, PartialEq, Eq, Structural, Debug)]
pub struct Vec2 {
    pub x: i64,
    pub y: i64,
}

impl Vec2 {
    /// Both coordinates within the supported range.
    pub open spec fn wf(self) -> bool {
        -COORD_MAX <= self.x <= COORD_MAX && -COORD_MAX <= self.y <= COORD_MAX
    }
}

/// Arm geometry: two strictly positive link lengths, the base position,
/// and the two solver flags.
#[derive(Clone, Copy, PartialEq, Eq, Structural, Debug)]
pub struct Scara {
    pub l1: i64,
    pub l2: i64,
    pub base: Vec2,
    pub elbow_up: bool,
    pub squared_formula: bool,
}

/// The joint configuration: both angles in micro-radians.
#[derive(Clone, Copy, PartialEq, Eq, Structural, Debug)]
pub struct ScaraState {
    pub theta1: i64,
    pub theta2: i64,
}

impl ScaraState {
    /// Angles within the supported range.
    pub open spec fn wf(self) -> bool {
        -1_000_000_000_000 <= self.theta1 <= 1_000_000_000_000
            && -1_000_000_000_000 <= self.theta2 <= 1_000_000_000_000
    }
}

/// The forward-kinematics output: the elbow joint and the end effector.
#[derive(Clone, Copy, PartialEq, Eq, Structural, Debug)]
pub struct Pose {
    pub joint1: Vec2,
    pub end_effector: Vec2,
}

/// Rejected geometry, reported at construction.
#[derive(Clone, Copy, PartialEq, Eq, Structural, Debug)]
pub enum ConfigurationError {
    /// A link length was zero or negative.
    NonPositiveLink,
    /// A link length was beyond `LEN_MAX`.
    LinkTooLong,
    /// The base position was outside the coordinate range.
    BaseOutOfRange,
}

/// A solve that could not produce angles.
#[derive(Clone, Copy, PartialEq, Eq, Structural, Debug)]
pub enum KinematicsError {
    /// The elbow cosine fell outside `[-1, 1]`, so no arm pose
    /// matches it.
    InvalidAngle,
}

/// The diagnostic record emitted when a target is out of reach: the
/// clamped relative coordinates and their resulting distance, all in
/// milli-units.
#[derive(Clone, Copy, PartialEq, Eq, Structural, Debug)]
pub struct ClampReport {
    pub x: i64,
    pub y: i64,
    pub dist: i64,
}

/// A successful inverse solve.
#[derive(Clone, Copy, PartialEq, Eq, Structural, Debug)]
pub struct IkSolution {
    /// Shoulder angle, micro-radians.
    pub theta1: i64,
    /// Elbow angle, micro-radians.
    pub theta2: i64,
    /// Whether the target lay strictly inside the reach circle.
    pub reachable: bool,
    /// Present exactly when the target was out of reach.
    pub clamp: Option<ClampReport>,
}

impl Scara {
    /// Valid geometry: positive, bounded lengths and a bounded base.
    pub open spec fn wf(self) -> bool {
        1 <= self.l1 <= LEN_MAX && 1 <= self.l2 <= LEN_MAX && self.base.wf()
    }

    /// Validating constructor: fails fast on bad geometry instead of
    /// failing at solve time.
    pub fn new(l1: i64, l2: i64, base: Vec2, elbow_up: bool, squared_formula: bool) -> (r:
        Result<Scara, ConfigurationError>)
        ensures
            r is Ok <==> (1 <= l1 <= LEN_MAX && 1 <= l2 <= LEN_MAX && base.wf()),
            r is Ok ==> r->Ok_0 == (Scara { l1, l2, base, elbow_up, squared_formula })
                && r->Ok_0.wf(),
            r == Result::<Scara, ConfigurationError>::Err(ConfigurationError::NonPositiveLink)
                <==> (l1 <= 0 || l2 <= 0),
            (l1 >= 1 && l2 >= 1 && (l1 > LEN_MAX || l2 > LEN_MAX)) <==> r == Result::<
                Scara,
                ConfigurationError,
            >::Err(ConfigurationError::LinkTooLong),
            (1 <= l1 <= LEN_MAX && 1 <= l2 <= LEN_MAX && !base.wf()) <==> r == Result::<
                Scara,
                ConfigurationError,
            >::Err(ConfigurationError::BaseOutOfRange),
    {
        if l1 <= 0 || l2 <= 0 {
            Err(ConfigurationError::NonPositiveLink)
        } else if l1 > LEN_MAX || l2 > LEN_MAX {
            Err(ConfigurationError::LinkTooLong)
        } else if base.x < -COORD_MAX || base.x > COORD_MAX || base.y < -COORD_MAX || base.y
            > COORD_MAX {
            Err(ConfigurationError::BaseOutOfRange)
        } else {
            Ok(Scara { l1, l2, base, elbow_up, squared_formula })
        }
    }

    /// The combined reach of both links, milli-units.
    pub open spec fn spec_reach(self) -> int {
        self.l1 + self.l2
    }

    /// Target position relative to the base.
    pub open spec fn spec_dx(self, target: Vec2) -> int {
        target.x - self.base.x
    }

    /// Target position relative to the base.
    pub open spec fn spec_dy(self, target: Vec2) -> int {
        target.y - self.base.y
    }

    /// Squared distance from base to target.
    pub open spec fn spec_dist_sq(self, target: Vec2) -> int {
        self.spec_dx(target) * self.spec_dx(target) + self.spec_dy(target) * self.spec_dy(target)
    }

    /// A target is reachable when its distance is strictly below the
    /// reach; a target exactly on the boundary circle is not.
    pub open spec fn spec_reachable(self, target: Vec2) -> bool {
        self.spec_dist_sq(target) < self.spec_reach() * self.spec_reach()
    }
}

/// Scaled product of a trig ratio (scale `ANG_ONE`) and a length:
/// `ratio * len / 1_000_000`, truncating toward zero.
pub open spec fn spec_trig_scale(ratio: int, len: int) -> int {
    spec_muldiv(ratio, len, 1_000_000)
}

impl Scara {
    /// Elbow joint position under forward kinematics.
    pub open spec fn spec_joint1(self, state: ScaraState) -> (int, int) {
        (
            self.base.x + spec_trig_scale(spec_cos(state.theta1 as int), self.l1 as int),
            self.base.y + spec_trig_scale(spec_sin(state.theta1 as int), self.l1 as int),
        )
    }

    /// End-effector position under forward kinematics.
    pub open spec fn spec_end_effector(self, state: ScaraState) -> (int, int) {
        let t12 = state.theta1 + state.theta2;
        (
            self.spec_joint1(state).0 + spec_trig_scale(spec_cos(t12), self.l2 as int),
            self.spec_joint1(state).1 + spec_trig_scale(spec_sin(t12), self.l2 as int),
        )
    }

    /// Forward kinematics: pure and total on well-formed inputs; the
    /// pose is a function of the geometry and the state alone, so two
    /// calls with equal inputs return equal poses.
    pub fn fk(&self, state: &ScaraState) -> (p: Pose)
        requires
            self.wf(),
            state.wf(),
        ensures
            p.joint1.x == self.spec_joint1(*state).0,
            p.joint1.y == self.spec_joint1(*state).1,
            p.end_effector.x == self.spec_end_effector(*state).0,
            p.end_effector.y == self.spec_end_effector(*state).1,
    {
        let c1: i64 = cos_fp(state.theta1);
        let s1: i64 = sin_fp(state.theta1);
        proof {
            lemma_trig_scale_bound(c1 as int, self.l1 as int);
            lemma_trig_scale_bound(s1 as int, self.l1 as int);
        }
        let x1: i64 = self.base.x + scale_div(c1, self.l1, ANG_ONE);
        let y1: i64 = self.base.y + scale_div(s1, self.l1, ANG_ONE);
        let t12: i64 = state.theta1 + state.theta2;
        let c12: i64 = cos_fp(t12);
        let s12: i64 = sin_fp(t12);
        proof {
            lemma_trig_scale_bound(c12 as int, self.l2 as int);
            lemma_trig_scale_bound(s12 as int, self.l2 as int);
        }
        let x2: i64 = x1 + scale_div(c12, self.l2, ANG_ONE);
        let y2: i64 = y1 + scale_div(s12, self.l2, ANG_ONE);
        Pose { joint1: Vec2 { x: x1, y: y1 }, end_effector: Vec2 { x: x2, y: y2 } }
    }
}

impl Scara {
    /// The relative x coordinate the angle computation uses: the raw
    /// offset when the target is reachable, otherwise the offset
    /// rescaled onto the reach circle and nudged by `CLAMP_EPS`.
    pub open spec fn spec_rel_x(self, target: Vec2) -> int {
        if self.spec_reachable(target) {
            self.spec_dx(target)
        } else {
            spec_muldiv(
                self.spec_dx(target),
                self.spec_reach(),
                spec_isqrt(self.spec_dist_sq(target)),
            ) - CLAMP_EPS
        }
    }

    /// The relative y coordinate the angle computation uses.
    pub open spec fn spec_rel_y(self, target: Vec2) -> int {
        if self.spec_reachable(target) {
            self.spec_dy(target)
        } else {
            spec_muldiv(
                self.spec_dy(target),
                self.spec_reach(),
                spec_isqrt(self.spec_dist_sq(target)),
            ) - CLAMP_EPS
        }
    }

    /// Squared length of the (possibly clamped) relative target.
    pub open spec fn spec_clamped_sq(self, target: Vec2) -> int {
        self.spec_rel_x(target) * self.spec_rel_x(target) + self.spec_rel_y(target)
            * self.spec_rel_y(target)
    }

    /// Length of the (possibly clamped) relative target.
    pub open spec fn spec_clamped_dist(self, target: Vec2) -> int {
        spec_isqrt(self.spec_clamped_sq(target))
    }

    /// The elbow cosine, scaled by one million. The squared form is the
    /// law of cosines, `(r^2 - l1^2 - l2^2) / (2 l1 l2)`; the unsquared
    /// legacy form divides `r - l1 - l2` (in units) by the same
    /// denominator and is kept selectable for parity with older
    /// behaviour.
    pub open spec fn spec_cos2_scaled(self, target: Vec2) -> int {
        if self.squared_formula {
            spec_muldiv(
                self.spec_clamped_sq(target) - self.l1 * self.l1 - self.l2 * self.l2,
                1_000_000,
                2 * self.l1 * self.l2,
            )
        } else {
            spec_muldiv(
                self.spec_clamped_dist(target) - self.l1 - self.l2,
                1_000_000_000,
                2 * self.l1 * self.l2,
            )
        }
    }

    /// The elbow cosine admits an angle exactly when it lies in
    /// `[-1, 1]`.
    pub open spec fn spec_in_domain(self, target: Vec2) -> bool {
        -1_000_000 <= self.spec_cos2_scaled(target) <= 1_000_000
    }

    /// Magnitude of the elbow angle, micro-radians, in `[0, PI_U]`.
    pub open spec fn spec_theta2_mag(self, target: Vec2) -> int {
        spec_acos(self.spec_cos2_scaled(target))
    }

    /// The elbow angle: the static `elbow_up` flag picks the branch.
    pub open spec fn spec_theta2(self, target: Vec2) -> int {
        if self.elbow_up {
            -self.spec_theta2_mag(target)
        } else {
            self.spec_theta2_mag(target)
        }
    }

    /// Wrist offset along the first link for the chosen elbow angle.
    pub open spec fn spec_k1(self, target: Vec2) -> int {
        self.l1 + spec_trig_scale(spec_cos(self.spec_theta2(target)), self.l2 as int)
    }

    /// Wrist offset across the first link for the chosen elbow angle.
    pub open spec fn spec_k2(self, target: Vec2) -> int {
        spec_trig_scale(spec_sin(self.spec_theta2(target)), self.l2 as int)
    }

    /// The shoulder angle: the bearing of the target minus the wrist
    /// correction.
    pub open spec fn spec_theta1(self, target: Vec2) -> int {
        spec_atan2(self.spec_rel_y(target), self.spec_rel_x(target)) - spec_atan2(
            self.spec_k2(target),
            self.spec_k1(target),
        )
    }

    /// Whether the target lies strictly inside the reach circle.
    pub fn reachable(&self, target: Vec2) -> (r: bool)
        requires
            self.wf(),
            target.wf(),
        ensures
            r == self.spec_reachable(target),
    {
        let dx: i64 = target.x - self.base.x;
        let dy: i64 = target.y - self.base.y;
        let dsq: u64 = dist_sq_exec(dx, dy);
        let reach: u64 = (self.l1 + self.l2) as u64;
        proof {
            lemma_mul_le(reach as int, reach as int, 2_000_000_000, 2_000_000_000);
        }
        let rsq: u64 = reach * reach;
        dsq < rsq
    }

    /// Inverse kinematics. Returns the joint angles that place the end
    /// effector at the (possibly clamped) target, the reachability
    /// verdict, and the clamp diagnostic when the target was out of
    /// reach; or `InvalidAngle` when the elbow cosine falls outside
    /// `[-1, 1]`.
    pub fn solve(&self, target: Vec2) -> (r: Result<IkSolution, KinematicsError>)
        requires
            self.wf(),
            target.wf(),
        ensures
            r is Ok <==> self.spec_in_domain(target),
            r is Err ==> r == Result::<IkSolution, KinematicsError>::Err(
                KinematicsError::InvalidAngle,
            ),
            r is Ok ==> ({
                let sol = r->Ok_0;
                &&& sol.reachable == self.spec_reachable(target)
                &&& sol.theta1 == self.spec_theta1(target)
                &&& sol.theta2 == self.spec_theta2(target)
                &&& -6_283_186 <= sol.theta1 <= 6_283_186
                &&& -3_141_593 <= sol.theta2 <= 3_141_593
                &&& (sol.clamp is Some <==> !self.spec_reachable(target))
                &&& (sol.clamp matches Some(c) ==> c.x == self.spec_rel_x(target) && c.y
                    == self.spec_rel_y(target) && c.dist == self.spec_clamped_dist(target))
            }),
    {
        let dx: i64 = target.x - self.base.x;
        let dy: i64 = target.y - self.base.y;
        let dsq: u64 = dist_sq_exec(dx, dy);
        let reach: i64 = self.l1 + self.l2;
        proof {
            lemma_mul_le(reach as int, reach as int, 2_000_000_000, 2_000_000_000);
        }
        let rsq: u64 = (reach as u64) * (reach as u64);
        let possible: bool = dsq < rsq;
        let (rx, ry): (i64, i64) = if possible {
            (dx, dy)
        } else {
            let d: u64 = isqrt(dsq);
            proof {
                assert(reach >= 2);
                assert(rsq >= 4) by (nonlinear_arith)
                    requires
                        rsq == reach as int * reach as int,
                        reach >= 2,
                ;
                assert(d >= 1) by (nonlinear_arith)
                    requires
                        d >= 0,
                        dsq >= 4,
                        dsq < (d + 1) * (d + 1),
                ;
                lemma_sq_signed_bound(dx as int, 2_100_000_000);
                lemma_sq_signed_bound(dy as int, 2_100_000_000);
                lemma_sq_within(dx as int, d as int, dsq as int);
                lemma_sq_within(dy as int, d as int, dsq as int);
                lemma_clamp_bound(dx as int, reach as int, d as int);
                lemma_clamp_bound(dy as int, reach as int, d as int);
            }
            let cx: i64 = scale_div(dx, reach, d as i64) - CLAMP_EPS;
            let cy: i64 = scale_div(dy, reach, d as i64) - CLAMP_EPS;
            (cx, cy)
        };
        proof {
            assert(dsq == self.spec_dist_sq(target));
            assert(possible == self.spec_reachable(target));
            assert(rx == self.spec_rel_x(target));
            assert(ry == self.spec_rel_y(target));
        }
        let rsq2: u64 = dist_sq_exec(rx, ry);
        let rdist: u64 = isqrt(rsq2);
        proof {
            lemma_sq_signed_bound(rx as int, 2_100_000_000);
            lemma_sq_signed_bound(ry as int, 2_100_000_000);
            lemma_sq_le(rdist as int, 3_000_000_000int);
            lemma_mul_le((2 * self.l1) as int, self.l2 as int, 2_000_000_000, 1_000_000_000);
        }
        let den: u64 = 2 * (self.l1 as u64) * (self.l2 as u64);
        proof {
            assert(den >= 2) by (nonlinear_arith)
                requires
                    den == (2 * self.l1 as int) * self.l2 as int,
                    self.l1 >= 1,
                    self.l2 >= 1,
            ;
        }
        let cos2w: i128 = if self.squared_formula {
            proof {
                lemma_mul_le(self.l1 as int, self.l1 as int, 1_000_000_000, 1_000_000_000);
                lemma_mul_le(self.l2 as int, self.l2 as int, 1_000_000_000, 1_000_000_000);
            }
            let numer: i128 = rsq2 as i128 - (self.l1 as i128) * (self.l1 as i128) - (
            self.l2 as i128) * (self.l2 as i128);
            muldiv_wide(numer, 1_000_000, den)
        } else {
            let numer: i128 = rdist as i128 - self.l1 as i128 - self.l2 as i128;
            muldiv_wide(numer, 1_000_000_000, den)
        };
        proof {
            assert(cos2w == self.spec_cos2_scaled(target));
        }
        if cos2w < -1_000_000 || cos2w > 1_000_000 {
            return Err(KinematicsError::InvalidAngle);
        }
        let cos2: i64 = cos2w as i64;
        let t2mag: i64 = acos_fp(cos2);
        let theta2: i64 = if self.elbow_up {
            -t2mag
        } else {
            t2mag
        };
        let c2: i64 = cos_fp(theta2);
        let s2: i64 = sin_fp(theta2);
        proof {
            lemma_trig_scale_bound(c2 as int, self.l2 as int);
            lemma_trig_scale_bound(s2 as int, self.l2 as int);
        }
        let k1: i64 = self.l1 + scale_div(c2, self.l2, ANG_ONE);
        let k2: i64 = scale_div(s2, self.l2, ANG_ONE);
        let a1: i64 = atan2_fp(ry, rx);
        let a2: i64 = atan2_fp(k2, k1);
        let theta1: i64 = a1 - a2;
        let clamp: Option<ClampReport> = if possible {
            None
        } else {
            Some(ClampReport { x: rx, y: ry, dist: rdist as i64 })
        };
        Ok(IkSolution { theta1, theta2, reachable: possible, clamp })
    }

    /// Inverse kinematics against a caller-held joint state, as the
    /// render loop uses it: on success the state is overwritten with
    /// the solution; when no angle exists the state is left untouched.
    /// The returned flag is the reachability verdict alone.
    pub fn ik(&self, target: Vec2, state: &mut ScaraState) -> (possible: bool)
        requires
            self.wf(),
            target.wf(),
        ensures
            possible == self.spec_reachable(target),
            self.spec_in_domain(target) ==> final(state).theta1 == self.spec_theta1(target)
                && final(state).theta2 == self.spec_theta2(target),
            !self.spec_in_domain(target) ==> *final(state) == *old(state),
            final(state).wf() || *final(state) == *old(state),
    {
        match self.solve(target) {
            Ok(sol) => {
                state.theta1 = sol.theta1;
                state.theta2 = sol.theta2;
                sol.reachable
            },
            Err(_) => self.reachable(target),
        }
    }
}

/// `dx * dx + dy * dy` for bounded coordinates, as a `u64`.
fn dist_sq_exec(dx: i64, dy: i64) -> (r: u64)
    requires
        -2_100_000_000 <= dx <= 2_100_000_000,
        -2_100_000_000 <= dy <= 2_100_000_000,
    ensures
        r == dx * dx + dy * dy,
{
    proof {
        lemma_sq_signed_bound(dx as int, 2_100_000_000);
        lemma_sq_signed_bound(dy as int, 2_100_000_000);
    }
    let sx: i128 = (dx as i128) * (dx as i128);
    let sy: i128 = (dy as i128) * (dy as i128);
    (sx + sy) as u64
}

/// The square of a value of bounded magnitude is nonnegative and
/// bounded by the square of the bound.
pub proof fn lemma_sq_signed_bound(v: int, bound: int)
    requires
        -bound <= v <= bound,
        0 <= bound,
    ensures
        0 <= v * v <= bound * bound,
{
    assert(0 <= v * v <= bound * bound) by (nonlinear_arith)
        requires
            -bound <= v <= bound,
            0 <= bound,
    ;
}

/// A coordinate of a vector is no longer than the integer square root
/// of anything bounding the squared length from above.
pub proof fn lemma_sq_within(v: int, d: int, sq: int)
    requires
        0 <= d,
        v * v <= sq,
        sq < (d + 1) * (d + 1),
    ensures
        -d <= v <= d,
{
    assert(-d <= v <= d) by (nonlinear_arith)
        requires
            0 <= d,
            v * v <= sq,
            sq < (d + 1) * (d + 1),
    ;
}

/// Rescaling a coordinate no longer than the distance keeps it within
/// the reach.
pub proof fn lemma_clamp_bound(v: int, reach: int, d: int)
    requires
        1 <= d,
        -d <= v <= d,
        0 <= reach,
    ensures
        -reach <= spec_muldiv(v, reach, d) <= reach,
{
    if v >= 0 {
        lemma_scale_le(v, reach, d);
        assert((v * reach) / d >= 0) by (nonlinear_arith)
            requires
                0 <= v,
                0 <= reach,
                1 <= d,
        ;
    } else {
        lemma_scale_le(-v, reach, d);
        assert(((-v) * reach) / d >= 0) by (nonlinear_arith)
            requires
                v < 0,
                0 <= reach,
                1 <= d,
        ;
    }
}

/// Clamping keeps out-of-reach targets solvable, shown here for the
/// squared formula with equal links and a reach of at least a fifth of
/// a unit, for targets in the closed first quadrant relative to the
/// base: the clamped point lands strictly inside the reach circle, the
/// elbow cosine stays within `[-1, 1]`, and `solve` returns angles
/// rather than an error. (A negative relative coordinate can defeat
/// the fixed nudge: subtracting `CLAMP_EPS` then moves the point away
/// from the disc and the cosine can pass 1.)
pub proof fn lemma_first_quadrant_clamp_in_domain(g: Scara, t: Vec2)
    requires
        g.wf(),
        g.squared_formula,
        g.l1 == g.l2,
        g.spec_reach() >= 200,
        g.spec_dx(t) >= 0,
        g.spec_dy(t) >= 0,
        !g.spec_reachable(t),
    ensures
        g.spec_in_domain(t),
{
    let dx: int = g.spec_dx(t);
    let dy: int = g.spec_dy(t);
    let dsq: int = g.spec_dist_sq(t);
    let reach: int = g.spec_reach();
    lemma_sq_signed_bound(dx, dx);
    lemma_sq_signed_bound(dy, dy);
    lemma_sq_signed_bound(reach, reach);
    assert(dsq >= reach * reach);
    lemma_isqrt_props(dsq);
    let d: int = spec_isqrt(dsq);
    assert(d >= reach) by (nonlinear_arith)
        requires
            d >= 0,
            reach >= 0,
            dsq >= reach * reach,
            dsq < (d + 1) * (d + 1),
    ;
    lemma_sq_within(dx, d, dsq);
    lemma_sq_within(dy, d, dsq);
    let a: int = (dx * reach) / d;
    let b: int = (dy * reach) / d;
    assert(g.spec_rel_x(t) == a - 100);
    assert(g.spec_rel_y(t) == b - 100);
    vstd::arithmetic::div_mod::lemma_fundamental_div_mod(dx * reach, d);
    vstd::arithmetic::div_mod::lemma_mod_bound(dx * reach, d);
    vstd::arithmetic::div_mod::lemma_fundamental_div_mod(dy * reach, d);
    vstd::arithmetic::div_mod::lemma_mod_bound(dy * reach, d);
    let m1: int = (dx * reach) % d;
    let m2: int = (dy * reach) % d;
    assert(d * a + m1 == dx * reach);
    assert(d * b + m2 == dy * reach);
    assert(a >= 0 && b >= 0) by (nonlinear_arith)
        requires
            a == (dx * reach) / d,
            b == (dy * reach) / d,
            dx >= 0,
            dy >= 0,
            reach >= 0,
            d >= 1,
    ;
    lemma_scale_le(dx, reach, d);
    lemma_scale_le(dy, reach, d);
    // the rescaled point lies at most just outside the circle
    assert((d * a) * (d * a) <= (dx * reach) * (dx * reach)) by (nonlinear_arith)
        requires
            d * a + m1 == dx * reach,
            0 <= m1,
            a >= 0,
            d >= 1,
    ;
    assert((d * b) * (d * b) <= (dy * reach) * (dy * reach)) by (nonlinear_arith)
        requires
            d * b + m2 == dy * reach,
            0 <= m2,
            b >= 0,
            d >= 1,
    ;
    assert((a * a + b * b) * (d * d) == (d * a) * (d * a) + (d * b) * (d * b))
        by (nonlinear_arith);
    assert((dx * dx + dy * dy) * (reach * reach) == (dx * reach) * (dx * reach) + (dy * reach)
        * (dy * reach)) by (nonlinear_arith);
    assert((a * a + b * b) * (d * d) <= (dx * dx + dy * dy) * (reach * reach));
    assert(dsq <= d * d + 2 * d) by (nonlinear_arith)
        requires
            dsq < (d + 1) * (d + 1),
    ;
    assert((a * a + b * b) * (d * d) <= (d * d) * (reach * reach + 2 * reach))
        by (nonlinear_arith)
        requires
            (a * a + b * b) * (d * d) <= dsq * (reach * reach),
            dsq <= d * d + 2 * d,
            1 <= reach <= d,
    ;
    assert(a * a + b * b <= reach * reach + 2 * reach) by (nonlinear_arith)
        requires
            (a * a + b * b) * (d * d) <= (d * d) * (reach * reach + 2 * reach),
            d >= 1,
    ;
    // and no closer to the base than just inside it
    assert(dx + dy >= d) by (nonlinear_arith)
        requires
            dx >= 0,
            dy >= 0,
            d >= 0,
            d * d <= dx * dx + dy * dy,
    ;
    assert(a + b >= reach - 1) by (nonlinear_arith)
        requires
            d * a + m1 == dx * reach,
            d * b + m2 == dy * reach,
            m1 < d,
            m2 < d,
            dx + dy >= d,
            reach >= 0,
            d >= 1,
    ;
    // the nudge pulls the squared distance strictly inside
    let csq: int = g.spec_clamped_sq(t);
    assert(csq == a * a + b * b - 200 * (a + b) + 20000) by (nonlinear_arith)
        requires
            csq == (a - 100) * (a - 100) + (b - 100) * (b - 100),
    ;
    assert(csq <= reach * reach - 198 * reach + 20200);
    assert(csq <= reach * reach - 1);
    assert(csq >= 0) by (nonlinear_arith)
        requires
            csq == (a - 100) * (a - 100) + (b - 100) * (b - 100),
    ;
    // with equal links the cosine denominator absorbs both bounds
    let den: int = 2 * g.l1 * g.l2;
    let numer: int = csq - g.l1 * g.l1 - g.l2 * g.l2;
    assert(reach * reach == den + g.l1 * g.l1 + g.l2 * g.l2) by (nonlinear_arith)
        requires
            reach == g.l1 + g.l2,
            den == 2 * g.l1 * g.l2,
    ;
    assert(g.l1 * g.l1 + g.l2 * g.l2 - den == 0) by (nonlinear_arith)
        requires
            den == 2 * g.l1 * g.l2,
            g.l1 == g.l2,
    ;
    assert(numer <= den - 1);
    assert(numer >= -den);
    assert(den >= 2) by (nonlinear_arith)
        requires
            den == 2 * g.l1 * g.l2,
            g.l1 >= 1,
            g.l2 >= 1,
    ;
    if numer >= 0 {
        lemma_mul_le(numer, 1_000_000, den - 1, 1_000_000);
        vstd::arithmetic::mul::lemma_mul_inequality(numer, den - 1, 1_000_000);
        vstd::arithmetic::div_mod::lemma_div_is_ordered(
            numer * 1_000_000,
            (den - 1) * 1_000_000,
            den,
        );
        lemma_scale_le(den - 1, 1_000_000, den);
        assert((numer * 1_000_000) / den >= 0) by (nonlinear_arith)
            requires
                numer >= 0,
                den >= 1,
        ;
        assert(g.spec_cos2_scaled(t) == (numer * 1_000_000) / den);
    } else {
        lemma_scale_le(-numer, 1_000_000, den);
        assert(((-numer) * 1_000_000) / den >= 0) by (nonlinear_arith)
            requires
                numer < 0,
                den >= 1,
        ;
        assert(g.spec_cos2_scaled(t) == -(((-numer) * 1_000_000) / den));
    }
}

/// A target exactly on the boundary of the reach circle is already out
/// of reach: the reachability test is a strict inequality.
pub proof fn lemma_boundary_unreachable(g: Scara, t: Vec2)
    requires
        g.spec_dist_sq(t) == g.spec_reach() * g.spec_reach(),
    ensures
        !g.spec_reachable(t),
{
}

/// The elbow branch is a static configuration choice: with the flag
/// toggled and everything else equal, the solver accepts exactly the
/// same targets, reports the same reachability, and picks the elbow
/// angle of the opposite sign.
pub proof fn lemma_elbow_static(g: Scara, g2: Scara, t: Vec2)
    requires
        g2 == (Scara { elbow_up: !g.elbow_up, ..g }),
    ensures
        g2.spec_reachable(t) == g.spec_reachable(t),
        g2.spec_in_domain(t) == g.spec_in_domain(t),
        g2.spec_theta2(t) == -g.spec_theta2(t),
{
    assert(g2.spec_dist_sq(t) == g.spec_dist_sq(t));
    assert(g2.spec_rel_x(t) == g.spec_rel_x(t));
    assert(g2.spec_rel_y(t) == g.spec_rel_y(t));
    assert(g2.spec_cos2_scaled(t) == g.spec_cos2_scaled(t));
    assert(g2.spec_theta2_mag(t) == g.spec_theta2_mag(t));
}

/// Scaling a length by a trig ratio keeps its magnitude below the
/// length itself.
pub proof fn lemma_trig_scale_bound(ratio: int, len: int)
    requires
        -1_000_000 <= ratio <= 1_000_000,
        0 <= len <= LEN_MAX,
    ensures
        -LEN_MAX <= spec_trig_scale(ratio, len) <= LEN_MAX,
        -len <= spec_trig_scale(ratio, len) <= len,
{
    if ratio >= 0 {
        lemma_scale_le(ratio, len, 1_000_000);
        assert((ratio * len) / 1_000_000 >= 0) by (nonlinear_arith)
            requires
                ratio >= 0,
                len >= 0,
        ;
    } else {
        lemma_scale_le(-ratio, len, 1_000_000);
        assert(((-ratio) * len) / 1_000_000 >= 0) by (nonlinear_arith)
            requires
                ratio < 0,
                len >= 0,
        ;
    }
}

} // verus!
